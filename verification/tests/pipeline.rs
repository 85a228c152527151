use minicomp::ast::{CompileError, Data, Expr, ExpectedToken, Instruction, Location, Op,
    Statement, Token, TokenKind};
use minicomp::codegen::generate;
use minicomp::compile;
use minicomp::parser::parse;
use minicomp::tokenizer::tokenize;

fn chars(s: &str) -> Vec<char> {
    s.chars().collect()
}

fn compile_str(s: &str) -> Result<String, CompileError> {
    compile(&chars(s))
}

#[test]
fn tokenize_number_add_number() {
    let r = tokenize(&chars("12+3")).unwrap();
    assert_eq!(
        r,
        vec![
            Token::Number { value: 12 },
            Token::Add,
            Token::Number { value: 3 },
        ]
    );
}

#[test]
fn tokenize_greedy_identifier() {
    let r = tokenize(&chars("ab12_c")).unwrap();
    assert_eq!(
        r,
        vec![Token::Identifier { name: "ab12_c".to_string() }]
    );
}

#[test]
fn tokenize_skips_whitespace() {
    let r = tokenize(&chars("a = 1 ;\n")).unwrap();
    assert_eq!(
        r,
        vec![
            Token::Identifier { name: "a".to_string() },
            Token::Assignment,
            Token::Number { value: 1 },
            Token::Semi,
        ]
    );
}

#[test]
fn tokenize_single_char_tokens() {
    let r = tokenize(&chars("+-*/()=;")).unwrap();
    assert_eq!(
        r,
        vec![
            Token::Add,
            Token::Sub,
            Token::Mul,
            Token::Div,
            Token::LeftParenthesis,
            Token::RightParenthesis,
            Token::Assignment,
            Token::Semi,
        ]
    );
}

#[test]
fn tokenize_invalid_character() {
    let r = tokenize(&chars("x=@;"));
    assert_eq!(r, Err(CompileError::InvalidCharacterError { found: '@' }));
}

#[test]
fn tokenize_number_at_i32_limit() {
    let r = tokenize(&chars("2147483647")).unwrap();
    assert_eq!(r, vec![Token::Number { value: 2147483647 }]);
}

#[test]
fn tokenize_number_overflow() {
    assert_eq!(
        tokenize(&chars("2147483648")),
        Err(CompileError::NumberOverflowError)
    );
    assert_eq!(
        tokenize(&chars("99999999999")),
        Err(CompileError::NumberOverflowError)
    );
}

#[test]
fn parse_precedence_mul_binds_tighter() {
    let tokens = tokenize(&chars("x=1+2*3;")).unwrap();
    let statements = parse(&tokens).unwrap();
    let expected = Statement::Assignment(
        "x".to_string(),
        Expr::BinaryExpr(
            Box::new(Expr::Integer(1)),
            Op::Add,
            Box::new(Expr::BinaryExpr(
                Box::new(Expr::Integer(2)),
                Op::Mul,
                Box::new(Expr::Integer(3)),
            )),
        ),
    );
    assert_eq!(statements, vec![expected]);
}

#[test]
fn parse_parentheses_override_precedence() {
    let tokens = tokenize(&chars("x=(1+2)*3;")).unwrap();
    let statements = parse(&tokens).unwrap();
    let expected = Statement::Assignment(
        "x".to_string(),
        Expr::BinaryExpr(
            Box::new(Expr::BinaryExpr(
                Box::new(Expr::Integer(1)),
                Op::Add,
                Box::new(Expr::Integer(2)),
            )),
            Op::Mul,
            Box::new(Expr::Integer(3)),
        ),
    );
    assert_eq!(statements, vec![expected]);
}

#[test]
fn parse_left_associative_addition() {
    let tokens = tokenize(&chars("x=1+2+3;")).unwrap();
    let statements = parse(&tokens).unwrap();
    let expected = Statement::Assignment(
        "x".to_string(),
        Expr::BinaryExpr(
            Box::new(Expr::BinaryExpr(
                Box::new(Expr::Integer(1)),
                Op::Add,
                Box::new(Expr::Integer(2)),
            )),
            Op::Add,
            Box::new(Expr::Integer(3)),
        ),
    );
    assert_eq!(statements, vec![expected]);
}

#[test]
fn parse_division_reaches_ast() {
    let tokens = tokenize(&chars("x=1/2;")).unwrap();
    let statements = parse(&tokens).unwrap();
    let expected = Statement::Assignment(
        "x".to_string(),
        Expr::BinaryExpr(
            Box::new(Expr::Integer(1)),
            Op::Div,
            Box::new(Expr::Integer(2)),
        ),
    );
    assert_eq!(statements, vec![expected]);
}

#[test]
fn parse_sub_token_stops_the_expression() {
    // The grammar's repetition continues only on `Add`: a `-` between terms
    // is tokenizable but never consumable, so the statement demands its
    // semicolon and reports the stray `Sub`.
    let tokens = tokenize(&chars("x=1-2;")).unwrap();
    assert_eq!(
        parse(&tokens),
        Err(CompileError::UnexpectedTokenError {
            expected: ExpectedToken::Semi,
            found: TokenKind::Sub,
        })
    );
}

#[test]
fn parse_missing_assignment() {
    let tokens = tokenize(&chars("x 1;")).unwrap();
    assert_eq!(
        parse(&tokens),
        Err(CompileError::UnexpectedTokenError {
            expected: ExpectedToken::Assignment,
            found: TokenKind::Number,
        })
    );
}

#[test]
fn parse_missing_factor() {
    let tokens = tokenize(&chars("x=;")).unwrap();
    assert_eq!(
        parse(&tokens),
        Err(CompileError::UnexpectedTokenError {
            expected: ExpectedToken::Factor,
            found: TokenKind::Semi,
        })
    );
}

#[test]
fn parse_missing_right_parenthesis() {
    let tokens = tokenize(&chars("x=(1;")).unwrap();
    assert_eq!(
        parse(&tokens),
        Err(CompileError::UnexpectedTokenError {
            expected: ExpectedToken::RightParenthesis,
            found: TokenKind::Semi,
        })
    );
}

#[test]
fn parse_premature_end_of_input() {
    let tokens = tokenize(&chars("x=1")).unwrap();
    assert_eq!(
        parse(&tokens),
        Err(CompileError::UnexpectedTokenError {
            expected: ExpectedToken::Semi,
            found: TokenKind::EndOfInput,
        })
    );
}

#[test]
fn parse_statement_must_start_with_identifier() {
    let tokens = tokenize(&chars("1=2;")).unwrap();
    assert_eq!(
        parse(&tokens),
        Err(CompileError::UnexpectedTokenError {
            expected: ExpectedToken::Identifier,
            found: TokenKind::Number,
        })
    );
}

#[test]
fn parse_empty_input() {
    let tokens = tokenize(&chars("")).unwrap();
    assert_eq!(tokens, vec![]);
    assert_eq!(
        parse(&tokens),
        Err(CompileError::UnexpectedTokenError {
            expected: ExpectedToken::Identifier,
            found: TokenKind::EndOfInput,
        })
    );
}

#[test]
fn generate_distinct_identifiers_take_slots_in_source_order() {
    // Three identifiers, each assigned once, in source order: the third
    // statement reads the first identifier, so its push shows slot 0, and
    // the reassignment of `b` afterwards shows slot 1.
    let tokens = tokenize(&chars("a=1;b=2;c=a;b=c;")).unwrap();
    let statements = parse(&tokens).unwrap();
    let instrs = generate(&statements).unwrap();
    assert_eq!(
        instrs,
        vec![
            Instruction::Push { source: Data::Constant(1) },
            Instruction::Push { source: Data::Constant(2) },
            Instruction::Push { source: Data::Loc(Location::StackIndex(0)) },
            Instruction::Move {
                source: Data::Loc(Location::StackIndex(2)),
                dest: Location::StackIndex(1),
            },
        ]
    );
}

#[test]
fn generate_unknown_identifier() {
    let tokens = tokenize(&chars("x=y;")).unwrap();
    let statements = parse(&tokens).unwrap();
    assert_eq!(
        generate(&statements),
        Err(CompileError::UnknownIdentifierError)
    );
}

#[test]
fn generate_identifier_unknown_inside_its_own_first_assignment() {
    let tokens = tokenize(&chars("x=x;")).unwrap();
    let statements = parse(&tokens).unwrap();
    assert_eq!(
        generate(&statements),
        Err(CompileError::UnknownIdentifierError)
    );
}

fn full_tree(depth: u32) -> Expr {
    if depth == 0 {
        Expr::Integer(1)
    } else {
        Expr::BinaryExpr(
            Box::new(full_tree(depth - 1)),
            Op::Add,
            Box::new(full_tree(depth - 1)),
        )
    }
}

#[test]
fn generate_deep_expression_exhausts_registers() {
    let fits = vec![Statement::Assignment("x".to_string(), full_tree(4))];
    assert!(generate(&fits).is_ok());
    let too_deep = vec![Statement::Assignment("x".to_string(), full_tree(5))];
    assert_eq!(generate(&too_deep), Err(CompileError::OutOfRegistersError));
}

#[test]
fn division_aborts_code_generation() {
    // Parsed but unsupported downstream: the whole compilation fails and
    // no assembly text is produced.
    assert_eq!(
        compile_str("x=1/2;"),
        Err(CompileError::UnsupportedOperationError)
    );
}

#[test]
fn compile_addition_program_text() {
    let text = compile_str("x=1+2;").unwrap();
    assert_eq!(
        text,
        ".global _start\n.text\n_start:\nmovq $2, %rbx\naddq $1, %rbx\npushq %rbx\nret\n"
    );
}

#[test]
fn compile_multiplication_program_text() {
    // The multiply primitive combines the two original operands and leaves
    // its result in the first register, so a compensating move follows.
    let text = compile_str("x=2*3;").unwrap();
    assert_eq!(
        text,
        ".global _start\n.text\n_start:\nmovq $3, %rbx\nimulq $2, $3\nmovq %rbx, %rbx\npushq %rbx\nret\n"
    );
}

#[test]
fn compile_reassignment_program_text() {
    let text = compile_str("x=1;x=2;").unwrap();
    assert_eq!(
        text,
        ".global _start\n.text\n_start:\npushq $1\nmovq $2, 0(%rsp)\nret\n"
    );
}

#[test]
fn compile_store_count_matches_statement_count() {
    let text = compile_str("a=1;b=a+2;a=b*3;c=(a+b)*2;").unwrap();
    assert!(text.starts_with(".global _start\n.text\n_start:\n"));
    assert!(text.ends_with("ret\n"));
    let stores = text
        .lines()
        .filter(|l| l.starts_with("pushq ") || (l.starts_with("movq ") && l.ends_with("(%rsp)")))
        .count();
    assert_eq!(stores, 4);
}

#[test]
fn compile_stops_at_first_error() {
    assert_eq!(
        compile_str("x=1;$"),
        Err(CompileError::InvalidCharacterError { found: '$' })
    );
    assert_eq!(
        compile_str("x=1"),
        Err(CompileError::UnexpectedTokenError {
            expected: ExpectedToken::Semi,
            found: TokenKind::EndOfInput,
        })
    );
}

#[test]
fn tokenize_uppercase_letters_are_identifier_letters() {
    let r = tokenize(&chars("Ab_1=2;")).unwrap();
    assert_eq!(
        r,
        vec![
            Token::Identifier { name: "Ab_1".to_string() },
            Token::Assignment,
            Token::Number { value: 2 },
            Token::Semi,
        ]
    );
}

#[test]
fn tokenize_only_space_and_newline_are_whitespace() {
    assert_eq!(
        tokenize(&chars("a\t=1;")),
        Err(CompileError::InvalidCharacterError { found: '\t' })
    );
}
