use treewalk::error::ErrorType;
use treewalk::expr::{Expr, ExprType};
use treewalk::parser::Parser;
use treewalk::stmt::{Stmt, StmtType};
use treewalk::token::{Literal, Token, TokenType};
use treewalk::tokenizer::Tokenizer;

fn parse(source: &str) -> Result<Vec<Stmt>, Vec<ErrorType>> {
    let tokenizer = Tokenizer::new(source);
    let tokens = tokenizer.tokenize().expect("Tokenizer returned error.");
    let mut parser = Parser::new(tokens);
    parser.parse()
}

fn errors_in_result(result: Result<Vec<Stmt>, Vec<ErrorType>>, errors: Vec<ErrorType>) -> bool {
    let Err(result_errors) = result else {
        return false;
    };
    for error in errors {
        if !result_errors.contains(&error) {
            return false;
        }
    }
    true
}

/// The constant of a number token, as the tokenizer keeps it: the numeral.
fn number(value: f64) -> Literal {
    Literal::Number(format!("{}", value))
}

#[test]
fn for_() {
    let source = "for (var x = 5; x < 10; x = x + 1) {var y = x}";
    assert_eq!(Ok(vec![Stmt { line: 1, stmt_type: StmtType::Block {
        body: vec![
            Stmt { line: 1, stmt_type: StmtType::VarDecl {
                name: String::from("x"),
                value: Expr { line: 1, expr_type: ExprType::Literal { value: number(5.0) }},
            }},
            Stmt { line: 1, stmt_type: StmtType::While {
                condition: Expr { line: 1, expr_type: ExprType::Binary {
                    left: Box::new(Expr { line: 1, expr_type: ExprType::Variable { name: String::from("x") }}),
                    operator: Token { type_: TokenType::Less, lexeme: String::from("<"), literal: Literal::Null, line: 1 },
                    right: Box::new(Expr { line: 1, expr_type: ExprType::Literal { value: number(10.0) }}),
                }},
                body: Box::new(Stmt { line: 1, stmt_type: StmtType::Block {
                    body: vec![
                        Stmt { line: 1, stmt_type: StmtType::Block {
                            body: vec![
                                Stmt { line: 1, stmt_type: StmtType::VarDecl {
                                    name: String::from("y"),
                                    value: Expr { line: 1, expr_type: ExprType::Variable { name: String::from("x") }},
                                }},
                            ],
                        }},
                        Stmt { line: 1, stmt_type: StmtType::Expression { expression: Expr { line: 1, expr_type: ExprType::Assignment {
                            target: Box::new(Expr { line: 1, expr_type: ExprType::Variable { name: String::from("x") }}),
                            value: Box::new(Expr { line: 1, expr_type: ExprType::Binary {
                                left: Box::new(Expr { line: 1, expr_type: ExprType::Variable { name: String::from("x") }}),
                                operator: Token { type_: TokenType::Plus, lexeme: String::from("+"), literal: Literal::Null, line: 1 },
                                right: Box::new(Expr { line: 1, expr_type: ExprType::Literal { value: number(1.0) }}),
                            }}),
                        }}}},
                    ],
                }}),
            }},
        ]
    }}]), parse(source));
}

#[test]
fn for_no_init() {
    let source = "for (; x < 10; x = x + 1) {var y = x}";
    assert_eq!(Ok(vec![Stmt { line: 1, stmt_type: StmtType::Block { body: vec![
        Stmt { line: 1, stmt_type: StmtType::While {
            condition: Expr { line: 1, expr_type: ExprType::Binary {
                left: Box::new(Expr { line: 1, expr_type: ExprType::Variable { name: String::from("x") }}),
                operator: Token { type_: TokenType::Less, lexeme: String::from("<"), literal: Literal::Null, line: 1 },
                right: Box::new(Expr { line: 1, expr_type: ExprType::Literal { value: number(10.0) }}),
            }},
            body: Box::new(Stmt { line: 1, stmt_type: StmtType::Block {
                body: vec![
                    Stmt { line: 1, stmt_type: StmtType::Block {
                        body: vec![
                            Stmt { line: 1, stmt_type: StmtType::VarDecl {
                                name: String::from("y"),
                                value: Expr { line: 1, expr_type: ExprType::Variable { name: String::from("x") }},
                            }},
                        ],
                    }},
                    Stmt { line: 1, stmt_type: StmtType::Expression { expression: Expr { line: 1, expr_type: ExprType::Assignment {
                        target: Box::new(Expr { line: 1, expr_type: ExprType::Variable { name: String::from("x") }}),
                        value: Box::new(Expr { line: 1, expr_type: ExprType::Binary {
                            left: Box::new(Expr { line: 1, expr_type: ExprType::Variable { name: String::from("x") }}),
                            operator: Token { type_: TokenType::Plus, lexeme: String::from("+"), literal: Literal::Null, line: 1 },
                            right: Box::new(Expr { line: 1, expr_type: ExprType::Literal { value: number(1.0) }}),
                        }}),
                    }}}},
                ],
            }}),
        }},
    ]}}]), parse(source));
}

#[test]
fn for_no_cond() {
    let source = "for (var x = 5;; x = x + 1) {var y = x}";
    assert_eq!(Ok(vec![Stmt { line: 1, stmt_type: StmtType::Block {
        body: vec![
            Stmt { line: 1, stmt_type: StmtType::VarDecl {
                name: String::from("x"),
                value: Expr { line: 1, expr_type: ExprType::Literal { value: number(5.0) }},
            }},
            Stmt { line: 1, stmt_type: StmtType::While {
                condition: Expr { line: 1, expr_type: ExprType::Literal { value: Literal::Bool(true) }},
                body: Box::new(Stmt { line: 1, stmt_type: StmtType::Block {
                    body: vec![
                        Stmt { line: 1, stmt_type: StmtType::Block {
                            body: vec![
                                Stmt { line: 1, stmt_type: StmtType::VarDecl {
                                    name: String::from("y"),
                                    value: Expr { line: 1, expr_type: ExprType::Variable { name: String::from("x") }},
                                }},
                            ],
                        }},
                        Stmt { line: 1, stmt_type: StmtType::Expression { expression: Expr { line: 1, expr_type: ExprType::Assignment {
                            target: Box::new(Expr { line: 1, expr_type: ExprType::Variable { name: String::from("x") }}),
                            value: Box::new(Expr { line: 1, expr_type: ExprType::Binary {
                                left: Box::new(Expr { line: 1, expr_type: ExprType::Variable { name: String::from("x") }}),
                                operator: Token { type_: TokenType::Plus, lexeme: String::from("+"), literal: Literal::Null, line: 1 },
                                right: Box::new(Expr { line: 1, expr_type: ExprType::Literal { value: number(1.0) }}),
                            }}),
                        }}}},
                    ],
                }}),
            }},
        ]
    }}]), parse(source));
}

#[test]
fn for_no_inc() {
    let source = "for (var x = 5; x < 10;) {var y = x}";
    assert_eq!(Ok(vec![Stmt { line: 1, stmt_type: StmtType::Block {
        body: vec![
            Stmt { line: 1, stmt_type: StmtType::VarDecl {
                name: String::from("x"),
                value: Expr { line: 1, expr_type: ExprType::Literal { value: number(5.0) }},
            }},
            Stmt { line: 1, stmt_type: StmtType::While {
                condition: Expr { line: 1, expr_type: ExprType::Binary {
                    left: Box::new(Expr { line: 1, expr_type: ExprType::Variable { name: String::from("x") }}),
                    operator: Token { type_: TokenType::Less, lexeme: String::from("<"), literal: Literal::Null, line: 1 },
                    right: Box::new(Expr { line: 1, expr_type: ExprType::Literal { value: number(10.0) }}),
                }},
                body: Box::new(Stmt { line: 1, stmt_type: StmtType::Block {
                    body: vec![
                        Stmt { line: 1, stmt_type: StmtType::Block {
                            body: vec![
                                Stmt { line: 1, stmt_type: StmtType::VarDecl {
                                    name: String::from("y"),
                                    value: Expr { line: 1, expr_type: ExprType::Variable { name: String::from("x") }},
                                }},
                            ],
                        }},
                    ],
                }}),
            }},
        ]
    }}]), parse(source));
}

#[test]
fn for_no_init_semicolon() {
    let source = "for (var x = 5 x < 10; x = x + 1) {var y = x}";
    assert!(errors_in_result(parse(source), vec![ErrorType::ExpectedSemicolonAfterInit { line: 1 }]));
}

#[test]
fn for_no_cond_semicolon() {
    let source = "for (var x = 5; x < 10 x = x + 1) {var y = x}";
    assert!(errors_in_result(parse(source), vec![ErrorType::ExpectedSemicolonAfterCondition { line: 1 }]));
}

#[test]
fn unclosed_for() {
    let source = "for (var x = 5; x < 10; x = x + 1 {var y = x}";
    assert!(errors_in_result(parse(source), vec![ErrorType::ExpectedParenAfterIncrement { line: 1 }]));
}

#[test]
fn unopened_block() {
    let source = "for (var x = 5; x < 10; x = x + 1) var y = x}";
    assert!(errors_in_result(parse(source), vec![ErrorType::ExpectedCharacter { expected: '{', line: 1 }]));
}

#[test]
fn unclosed_block() {
    let source = "for (var x = 5; x < 10; x = x + 1) {var y = x";
    assert!(errors_in_result(parse(source), vec![ErrorType::ExpectedCharacter { expected: '}', line: 1 }]));
}

#[test]
fn func() {
    let source = "func hello(a, b) {print a print b}";
    assert_eq!(Ok(vec![Stmt { line: 1, stmt_type: StmtType::Function {
        name: String::from("hello"),
        parameters: vec![String::from("a"), String::from("b")],
        body: Box::new(Stmt { line: 1, stmt_type: StmtType::Block { body: vec![
            Stmt { line: 1, stmt_type: StmtType::Print { expression: Expr { line: 1, expr_type: ExprType::Variable { name: String::from("a") }}}},
            Stmt { line: 1, stmt_type: StmtType::Print { expression: Expr { line: 1, expr_type: ExprType::Variable { name: String::from("b") }}}},
        ]}}),
    }}]), parse(source));
}

#[test]
fn func_keyword_name() {
    let source = "func print(a, b) {print a print b}";
    assert!(errors_in_result(parse(source), vec![ErrorType::ExpectedFunctionName { line: 1 }]));
}

#[test]
fn if_() {
    let source = "if (a == 2) {print a}";
    assert_eq!(Ok(vec![Stmt { line: 1, stmt_type: StmtType::If {
        condition: Expr { line: 1, expr_type: ExprType::Binary {
            left: Box::new(Expr { line: 1, expr_type: ExprType::Variable { name: String::from("a") }}),
            operator: Token { type_: TokenType::EqualEqual, lexeme: String::from("=="), literal: Literal::Null, line: 1 },
            right: Box::new(Expr { line: 1, expr_type: ExprType::Literal { value: number(2.0) }}),
        }},
        then_body: Box::new(Stmt { line: 1, stmt_type: StmtType::Block { body: vec![Stmt { line: 1, stmt_type: StmtType::Print { expression: Expr { line: 1, expr_type: ExprType::Variable { name: String::from("a") } }}}] }}),
        else_body: None,
    }}]), parse(source));
}

#[test]
fn else_if() {
    let source = "if (a == 2) {print a} else if (a == 3) {print b} else if (a == 4) {print c}";
    assert_eq!(Ok(vec![Stmt { line: 1, stmt_type: StmtType::If {
        condition: Expr { line: 1, expr_type: ExprType::Binary {
            left: Box::new(Expr { line: 1, expr_type: ExprType::Variable { name: String::from("a") }}),
            operator: Token { type_: TokenType::EqualEqual, lexeme: String::from("=="), literal: Literal::Null, line: 1 },
            right: Box::new(Expr { line: 1, expr_type: ExprType::Literal { value: number(2.0) }}),
        }},
        then_body: Box::new(Stmt { line: 1, stmt_type: StmtType::Block { body: vec![Stmt { line: 1, stmt_type: StmtType::Print { expression: Expr { line: 1, expr_type: ExprType::Variable { name: String::from("a") } }}}] }}),
        else_body: Some(Box::new(
            Stmt { line: 1, stmt_type: StmtType::If {
                condition: Expr { line: 1, expr_type: ExprType::Binary {
                    left: Box::new(Expr { line: 1, expr_type: ExprType::Variable { name: String::from("a") }}),
                    operator: Token { type_: TokenType::EqualEqual, lexeme: String::from("=="), literal: Literal::Null, line: 1 },
                    right: Box::new(Expr { line: 1, expr_type: ExprType::Literal { value: number(3.0) }}),
                }},
                then_body: Box::new(Stmt { line: 1, stmt_type: StmtType::Block { body: vec![Stmt { line: 1, stmt_type: StmtType::Print { expression: Expr { line: 1, expr_type: ExprType::Variable { name: String::from("b") } }}}]} }),
                else_body: Some(Box::new(
                    Stmt { line: 1, stmt_type: StmtType::If {
                        condition: Expr { line: 1, expr_type: ExprType::Binary {
                            left: Box::new(Expr { line: 1, expr_type: ExprType::Variable { name: String::from("a") }}),
                            operator: Token { type_: TokenType::EqualEqual, lexeme: String::from("=="), literal: Literal::Null, line: 1 },
                            right: Box::new(Expr { line: 1, expr_type: ExprType::Literal { value: number(4.0) }}),
                        }},
                        then_body: Box::new(Stmt { line: 1, stmt_type: StmtType::Block { body: vec![Stmt { line: 1, stmt_type: StmtType::Print { expression: Expr { line: 1, expr_type: ExprType::Variable { name: String::from("c") } }}}]} }),
                        else_body: None,
                    }}
                )),
            }}
        )),
    }}]), parse(source));
}

#[test]
fn else_() {
    let source = "if (a == 2) {print a} else {print b}";
    assert_eq!(Ok(vec![Stmt { line: 1, stmt_type: StmtType::If {
        condition: Expr { line: 1, expr_type: ExprType::Binary {
            left: Box::new(Expr { line: 1, expr_type: ExprType::Variable { name: String::from("a") }}),
            operator: Token { type_: TokenType::EqualEqual, lexeme: String::from("=="), literal: Literal::Null, line: 1 },
            right: Box::new(Expr { line: 1, expr_type: ExprType::Literal { value: number(2.0) }}),
        }},
        then_body: Box::new(Stmt { line: 1, stmt_type: StmtType::Block { body: vec![Stmt { line: 1, stmt_type: StmtType::Print { expression: Expr { line: 1, expr_type: ExprType::Variable { name: String::from("a") } }}}]} }),
        else_body: Some(Box::new(Stmt { line: 1, stmt_type: StmtType::Block { body: vec![Stmt { line: 1, stmt_type: StmtType::Print { expression: Expr { line: 1, expr_type: ExprType::Variable { name: String::from("b") } }}}]} })),
    }}]), parse(source));
}

#[test]
fn print() {
    let source = "print 5*1+2*(3-4/a)";
    assert_eq!(Ok(vec![Stmt { line: 1, stmt_type: StmtType::Print { expression: Expr { line: 1, expr_type: ExprType::Binary {
        left: Box::new(Expr { line: 1, expr_type: ExprType::Binary {
            left: Box::new(Expr { line: 1, expr_type: ExprType::Literal { value: number(5.0) }}),
            operator: Token { type_: TokenType::Star, lexeme: String::from("*"), literal: Literal::Null, line: 1 },
            right: Box::new(Expr { line: 1, expr_type: ExprType::Literal { value: number(1.0) }}),
        }}),
        operator: Token { type_: TokenType::Plus, lexeme: String::from("+"), literal: Literal::Null, line: 1 },
        right: Box::new(Expr { line: 1, expr_type: ExprType::Binary {
            left: Box::new(Expr { line: 1, expr_type: ExprType::Literal { value: number(2.0) }}),
            operator: Token { type_: TokenType::Star, lexeme: String::from("*"), literal: Literal::Null, line: 1 },
            right: Box::new(Expr { line: 1, expr_type: ExprType::Grouping {
                expression: Box::new(Expr { line: 1, expr_type: ExprType::Binary {
                    left: Box::new(Expr { line: 1, expr_type: ExprType::Literal { value: number(3.0) }}),
                    operator: Token { type_: TokenType::Minus, lexeme: String::from("-"), literal: Literal::Null, line: 1 },
                    right: Box::new(Expr { line: 1, expr_type: ExprType::Binary {
                        left: Box::new(Expr { line: 1, expr_type: ExprType::Literal { value: number(4.0) }}),
                        operator: Token { type_: TokenType::Slash, lexeme: String::from("/"), literal: Literal::Null, line: 1 },
                        right: Box::new(Expr { line: 1, expr_type: ExprType::Variable { name: String::from("a") }}),
                    }}),
                }}),
            }}),
        }}),
    }}}}]), parse(source));
}

#[test]
fn var() {
    let source = "var a = 5";
    assert_eq!(Ok(vec![Stmt { line: 1, stmt_type: StmtType::VarDecl { name: String::from("a"), value: Expr { line: 1, expr_type: ExprType::Literal { value: number(5.0) } }}}]), parse(source));
}

#[test]
fn invalid_var_name() {
    let source = "var 123 = 5";
    assert!(errors_in_result(parse(source), vec![ErrorType::ExpectedVariableName { line: 1 }]));
}

#[test]
fn while_() {
    let source = "while (a == 2) {print b}";
    assert_eq!(Ok(vec![Stmt { line: 1, stmt_type: StmtType::While {
        condition: Expr { line: 1, expr_type: ExprType::Binary {
            left: Box::new(Expr { line: 1, expr_type: ExprType::Variable { name: String::from("a") }}),
            operator: Token { type_: TokenType::EqualEqual, lexeme: String::from("=="), literal: Literal::Null, line: 1 },
            right: Box::new(Expr { line: 1, expr_type: ExprType::Literal { value: number(2.0) }}),
        }},
        body: Box::new(Stmt { line: 1, stmt_type: StmtType::Block { body: vec![Stmt { line: 1, stmt_type: StmtType::Print { expression: Expr { line: 1, expr_type: ExprType::Variable { name: String::from("b") } }}}]} }),
    }}]), parse(source));
}

#[test]
fn multiple_statements() {
    let source = "print a if (a == 2) {print a} else {print b} var c = 3";
    assert_eq!(Ok(vec![
        Stmt { line: 1, stmt_type: StmtType::Print { expression: Expr { line: 1, expr_type: ExprType::Variable { name: String::from("a") } } } },
        Stmt { line: 1, stmt_type: StmtType::If {
            condition: Expr { line: 1, expr_type: ExprType::Binary {
                left: Box::new(Expr { line: 1, expr_type: ExprType::Variable { name: String::from("a") }}),
                operator: Token { type_: TokenType::EqualEqual, lexeme: String::from("=="), literal: Literal::Null, line: 1 },
                right: Box::new(Expr { line: 1, expr_type: ExprType::Literal { value: number(2.0) }}),
            }},
            then_body: Box::new(Stmt { line: 1, stmt_type: StmtType::Block { body: vec![Stmt { line: 1, stmt_type: StmtType::Print { expression: Expr { line: 1, expr_type: ExprType::Variable { name: String::from("a") } }}}]} }),
            else_body: Some(Box::new(Stmt { line: 1, stmt_type: StmtType::Block { body: vec![Stmt { line: 1, stmt_type: StmtType::Print { expression: Expr { line: 1, expr_type: ExprType::Variable { name: String::from("b") } }}}]} })),
        }},
        Stmt { line: 1, stmt_type: StmtType::VarDecl { name: String::from("c"), value: Expr { line: 1, expr_type: ExprType::Literal { value: number(3.0) } } } },
    ]), parse(source));
}

#[test]
fn bidmas() {
    let source = "5*1+2*(3-4/a)";
    assert_eq!(Ok(vec![Stmt { line: 1, stmt_type: StmtType::Expression { expression: Expr { line: 1, expr_type: ExprType::Binary {
        left: Box::new(Expr { line: 1, expr_type: ExprType::Binary {
            left: Box::new(Expr { line: 1, expr_type: ExprType::Literal { value: number(5.0) }}),
            operator: Token { type_: TokenType::Star, lexeme: String::from("*"), literal: Literal::Null, line: 1 },
            right: Box::new(Expr { line: 1, expr_type: ExprType::Literal { value: number(1.0) }}),
        }}),
        operator: Token { type_: TokenType::Plus, lexeme: String::from("+"), literal: Literal::Null, line: 1 },
        right: Box::new(Expr { line: 1, expr_type: ExprType::Binary {
            left: Box::new(Expr { line: 1, expr_type: ExprType::Literal { value: number(2.0) }}),
            operator: Token { type_: TokenType::Star, lexeme: String::from("*"), literal: Literal::Null, line: 1 },
            right: Box::new(Expr { line: 1, expr_type: ExprType::Grouping {
                expression: Box::new(Expr { line: 1, expr_type: ExprType::Binary {
                    left: Box::new(Expr { line: 1, expr_type: ExprType::Literal { value: number(3.0) }}),
                    operator: Token { type_: TokenType::Minus, lexeme: String::from("-"), literal: Literal::Null, line: 1 },
                    right: Box::new(Expr { line: 1, expr_type: ExprType::Binary {
                        left: Box::new(Expr { line: 1, expr_type: ExprType::Literal { value: number(4.0) }}),
                        operator: Token { type_: TokenType::Slash, lexeme: String::from("/"), literal: Literal::Null, line: 1 },
                        right: Box::new(Expr { line: 1, expr_type: ExprType::Variable { name: String::from("a") }}),
                }}),
                }}),
            }}),
        }}),
    }}}}]), parse(source));
}

#[test]
fn logic() {
    let source = "true and true or false and true or false";
    assert_eq!(Ok(vec![Stmt { line: 1, stmt_type: StmtType::Expression { expression: Expr { line: 1, expr_type: ExprType::Binary {
        left: Box::new(Expr { line: 1, expr_type: ExprType::Binary {
            left: Box::new(Expr { line: 1, expr_type: ExprType::Binary {
                left: Box::new(Expr { line: 1, expr_type: ExprType::Literal {value: Literal::Bool(true) }}),
                operator: Token { type_: TokenType::And, lexeme: String::from("and"), literal: Literal::Null, line: 1 },
                right: Box::new(Expr { line: 1, expr_type: ExprType::Literal {value: Literal::Bool(true) }}),
            }}),
            operator: Token { type_: TokenType::Or, lexeme: String::from("or"), literal: Literal::Null, line: 1 },
            right: Box::new(Expr { line: 1, expr_type: ExprType::Binary {
                left: Box::new(Expr { line: 1, expr_type: ExprType::Literal {value: Literal::Bool(false) }}),
                operator: Token { type_: TokenType::And, lexeme: String::from("and"), literal: Literal::Null, line: 1 },
                right: Box::new(Expr { line: 1, expr_type: ExprType::Literal {value: Literal::Bool(true) }}),
            }}),
        }}),
        operator: Token { type_: TokenType::Or, lexeme: String::from("or"), literal: Literal::Null, line: 1 },
        right: Box::new(Expr { line: 1, expr_type: ExprType::Literal {value: Literal::Bool(false) }}),
    }}}}]), parse(source));
}

#[test]
fn array() {
    let source = "[[5, a, b], 3+1, \"g\"]";
    assert_eq!(Ok(vec![Stmt { line: 1, stmt_type: StmtType::Expression { expression: Expr { line: 1, expr_type: ExprType::Array {
        elements: vec![
            Expr { line: 1, expr_type: ExprType::Array {
                elements: vec![
                    Expr { line: 1, expr_type: ExprType::Literal { value: number(5.0) }},
                    Expr { line: 1, expr_type: ExprType::Variable { name: String::from("a") }},
                    Expr { line: 1, expr_type: ExprType::Variable { name: String::from("b") }},
                ]
            }},
            Expr { line: 1, expr_type: ExprType::Binary {
                left: Box::new(Expr { line: 1, expr_type: ExprType::Literal { value: number(3.0) }}),
                operator: Token { type_: TokenType::Plus, lexeme: String::from("+"), literal: Literal::Null, line: 1 },
                right: Box::new(Expr { line: 1, expr_type: ExprType::Literal { value: number(1.0) }}),
            }},
            Expr { line: 1, expr_type: ExprType::Literal { value: Literal::String_(String::from("g")) }},
        ]
    }}}}]), parse(source));
}

#[test]
fn empty_array() {
    let source = "[]";
    assert_eq!(Ok(vec![Stmt { line: 1, stmt_type: StmtType::Expression { expression: Expr { line: 1, expr_type: ExprType::Array {elements: vec![] }}}}]), parse(source));
}

#[test]
fn unclosed_array() {
    let source = "[[5, a, b], 3+1, \"g\"";
    assert!(errors_in_result(parse(source), vec![ErrorType::ExpectedCharacter { expected: ']', line: 1 }]));
    let source = "[[5, a, b, 3+1, \"g\"]";
    assert!(errors_in_result(parse(source), vec![ErrorType::ExpectedCharacter { expected: ']', line: 1 }]));
}

#[test]
fn error_line_numbers() {
    let source = "\n[[5, a, b, 3+1, \"g\"]";
    assert!(errors_in_result(parse(source), vec![ErrorType::ExpectedCharacter { expected: ']', line: 2 }]));
    let source = "\n\n[[5, a, b, 3+1, \"g\"]";
    assert!(errors_in_result(parse(source), vec![ErrorType::ExpectedCharacter { expected: ']', line: 3 }]));
}

#[test]
fn unclosed_grouping() {
    let source = "(5 + 5";
    assert!(errors_in_result(parse(source), vec![ErrorType::ExpectedCharacter { expected: ')', line: 1 }]));
}

#[test]
fn element() {
    let source = "a[5]";
    assert_eq!(Ok(vec![Stmt { line: 1, stmt_type: StmtType::Expression { expression: Expr { line: 1, expr_type: ExprType::Element {
        array: Box::new(Expr { line: 1, expr_type: ExprType::Variable { name: String::from("a") }}),
        index: Box::new(Expr { line: 1, expr_type: ExprType::Literal { value: number(5.0) } }),
    }}}}]), parse(source));
}

#[test]
fn element_2d() {
    let source = "a[1][2]";
    assert_eq!(Ok(vec![Stmt { line: 1, stmt_type: StmtType::Expression { expression: Expr { line: 1, expr_type: ExprType::Element {
        array: Box::new(Expr { line: 1, expr_type: ExprType::Element {
            array: Box::new(Expr { line: 1, expr_type: ExprType::Variable { name: String::from("a") }}),
            index: Box::new(Expr { line: 1, expr_type: ExprType::Literal { value: number(1.0) } }),
        }}),
        index: Box::new(Expr { line: 1, expr_type: ExprType::Literal { value: number(2.0) } }),
    }}}}]), parse(source));
}

#[test]
fn comparison() {
    let source = "1 < 2 == 3 > 4 <= 5 >= 6 != 7";
    assert_eq!(Ok(vec![Stmt { line: 1, stmt_type: StmtType::Expression { expression: Expr { line: 1, expr_type: ExprType::Binary {
        left: Box::new(Expr { line: 1, expr_type: ExprType::Binary {
            left: Box::new(Expr { line: 1, expr_type: ExprType::Binary {
                left: Box::new(Expr { line: 1, expr_type: ExprType::Literal { value: number(1.0) }}),
                operator: Token { type_: TokenType::Less, lexeme: String::from("<"), literal: Literal::Null, line: 1 },
                right: Box::new(Expr { line: 1, expr_type: ExprType::Literal { value: number(2.0) }}),
            }}),
            operator: Token { type_: TokenType::EqualEqual, lexeme: String::from("=="), literal: Literal::Null, line: 1 },
            right: Box::new(Expr { line: 1, expr_type: ExprType::Binary {
                left: Box::new(Expr { line: 1, expr_type: ExprType::Binary {
                    left: Box::new(Expr { line: 1, expr_type: ExprType::Binary {
                        left: Box::new(Expr { line: 1, expr_type: ExprType::Literal { value: number(3.0) }}),
                        operator: Token { type_: TokenType::Greater, lexeme: String::from(">"), literal: Literal::Null, line: 1 },
                        right: Box::new(Expr { line: 1, expr_type: ExprType::Literal { value: number(4.0) }}),
                    }}),
                    operator: Token { type_: TokenType::LessEqual, lexeme: String::from("<="), literal: Literal::Null, line: 1 },
                    right: Box::new(Expr { line: 1, expr_type: ExprType::Literal { value: number(5.0) }}),
                }}),
                operator: Token { type_: TokenType::GreaterEqual, lexeme: String::from(">="), literal: Literal::Null, line: 1 },
                right: Box::new(Expr { line: 1, expr_type: ExprType::Literal { value: number(6.0) }}),
            }}),
        }}),
        operator: Token { type_: TokenType::BangEqual, lexeme: String::from("!="), literal: Literal::Null, line: 1 },
        right: Box::new(Expr { line: 1, expr_type: ExprType::Literal { value: number(7.0) }}),
    }}}}]), parse(source));
}

#[test]
fn call() {
    let source = "a(1, \"a\")(bc, 2+3)";
    assert_eq!(Ok(vec![Stmt { line: 1, stmt_type: StmtType::Expression { expression: Expr { line: 1, expr_type: ExprType::Call {
        callee: Box::new(Expr { line: 1, expr_type: ExprType::Call {
            callee: Box::new(Expr { line: 1, expr_type: ExprType::Variable { name: String::from("a") }}),
            arguments: vec![
                Expr { line: 1, expr_type: ExprType::Literal { value: number(1.0) }},
                Expr { line: 1, expr_type: ExprType::Literal { value: Literal::String_(String::from("a")) }}
            ],
        }}),
        arguments: vec![
            Expr { line: 1, expr_type: ExprType::Variable { name: String::from("bc") }},
            Expr { line: 1, expr_type: ExprType::Binary {
                left: Box::new(Expr { line: 1, expr_type: ExprType::Literal { value: number(2.0) }}),
                operator: Token { type_: TokenType::Plus, lexeme: String::from("+"), literal: Literal::Null, line: 1 },
                right: Box::new(Expr { line: 1, expr_type: ExprType::Literal { value: number(3.0) }}),
            }}
        ],
    }}}}]), parse(source));
}

#[test]
fn empty_call() {
    let source = "a()";
    assert_eq!(Ok(vec![Stmt { line: 1, stmt_type: StmtType::Expression { expression: Expr { line: 1, expr_type: ExprType::Call {
        callee: Box::new(Expr { line: 1, expr_type: ExprType::Variable { name: String::from("a") }}),
        arguments: vec![],
    }}}}]), parse(source));
}

#[test]
fn unclosed_call() {
    let source = "a(1, \"a\"(bc, 2+3)";
    assert!(errors_in_result(parse(source), vec![ErrorType::ExpectedCharacter { expected: ')', line: 1 }]));
    let source = "a(1, \"a\")(bc, 2+3";
    assert!(errors_in_result(parse(source), vec![ErrorType::ExpectedCharacter { expected: ')', line: 1 }]));
}

#[test]
fn unary() {
    let source = "!!--5";
    assert_eq!(Ok(vec![Stmt { line: 1, stmt_type: StmtType::Expression { expression: Expr { line: 1, expr_type: ExprType::Unary {
        operator: Token { type_: TokenType::Bang, lexeme: String::from("!"), literal: Literal::Null, line: 1 },
        right: Box::new(Expr { line: 1, expr_type: ExprType::Unary {
            operator: Token { type_: TokenType::Bang, lexeme: String::from("!"), literal: Literal::Null, line: 1 },
            right: Box::new(Expr { line: 1, expr_type: ExprType::Unary {
                operator: Token { type_: TokenType::Minus, lexeme: String::from("-"), literal: Literal::Null, line: 1 },
                right: Box::new(Expr { line: 1, expr_type: ExprType::Unary {
                    operator: Token { type_: TokenType::Minus, lexeme: String::from("-"), literal: Literal::Null, line: 1 },
                    right: Box::new(Expr { line: 1, expr_type: ExprType::Literal { value: number(5.0) }}),
                }}),
            }}),
        }}),
    }}}}]), parse(source));
}

#[test]
fn etc() {
    let source = "5--4";
    assert_eq!(Ok(vec![Stmt { line: 1, stmt_type: StmtType::Expression { expression: Expr { line: 1, expr_type: ExprType::Binary {
        left: Box::new(Expr { line: 1, expr_type: ExprType::Literal { value: number(5.0) }}),
        operator: Token { type_: TokenType::Minus, lexeme: String::from("-"), literal: Literal::Null, line: 1 },
        right: Box::new(Expr { line: 1, expr_type: ExprType::Unary {
            operator: Token { type_: TokenType::Minus, lexeme: String::from("-"), literal: Literal::Null, line: 1 },
            right: Box::new(Expr { line: 1, expr_type: ExprType::Literal { value: number(4.0) }}),
        }}),
    }}}}]), parse(source));
}

#[test]
fn sync() {
    let source = "print {\nfor (x = 5; x < 2; x = x + 1 {print x}";
    assert!(errors_in_result(parse(source), vec![
        ErrorType::ExpectedExpression { line: 1 },
        ErrorType::ExpectedParenAfterIncrement { line: 2 },
    ]));
}

#[test]
fn assignment_is_right_associative() {
    let source = "a = b = 5";
    assert_eq!(Ok(vec![Stmt { line: 1, stmt_type: StmtType::Expression { expression: Expr { line: 1, expr_type: ExprType::Assignment {
        target: Box::new(Expr { line: 1, expr_type: ExprType::Variable { name: String::from("a") }}),
        value: Box::new(Expr { line: 1, expr_type: ExprType::Assignment {
            target: Box::new(Expr { line: 1, expr_type: ExprType::Variable { name: String::from("b") }}),
            value: Box::new(Expr { line: 1, expr_type: ExprType::Literal { value: number(5.0) }}),
        }}),
    }}}}]), parse(source));
}

#[test]
fn assignment_target_is_not_checked() {
    let source = "5 = 3";
    assert_eq!(Ok(vec![Stmt { line: 1, stmt_type: StmtType::Expression { expression: Expr { line: 1, expr_type: ExprType::Assignment {
        target: Box::new(Expr { line: 1, expr_type: ExprType::Literal { value: number(5.0) }}),
        value: Box::new(Expr { line: 1, expr_type: ExprType::Literal { value: number(3.0) }}),
    }}}}]), parse(source));
}

#[test]
fn dictionary() {
    let source = "{1: a, \"k\": 2}";
    assert_eq!(Ok(vec![Stmt { line: 1, stmt_type: StmtType::Expression { expression: Expr { line: 1, expr_type: ExprType::Dictionary {
        elements: vec![
            treewalk::expr::KeyValue {
                key: Expr { line: 1, expr_type: ExprType::Literal { value: number(1.0) }},
                value: Expr { line: 1, expr_type: ExprType::Variable { name: String::from("a") }},
            },
            treewalk::expr::KeyValue {
                key: Expr { line: 1, expr_type: ExprType::Literal { value: Literal::String_(String::from("k")) }},
                value: Expr { line: 1, expr_type: ExprType::Literal { value: number(2.0) }},
            },
        ]
    }}}}]), parse(source));
    assert_eq!(Ok(vec![Stmt { line: 1, stmt_type: StmtType::Expression { expression: Expr { line: 1, expr_type: ExprType::Dictionary { elements: vec![] }}}}]), parse("{}"));
}

#[test]
fn dictionary_without_colon() {
    assert_eq!(parse("{1 2}"), Err(vec![ErrorType::ExpectedColonAfterKey { line: 1 }]));
}

#[test]
fn parameter_has_to_be_a_name() {
    assert!(errors_in_result(parse("func f(a, 1) {}"), vec![ErrorType::ExpectedParameterName { line: 1 }]));
    assert!(errors_in_result(parse("func f(a,) {}"), vec![ErrorType::ExpectedParameterName { line: 1 }]));
}

#[test]
fn function_without_parameters() {
    assert_eq!(Ok(vec![Stmt { line: 1, stmt_type: StmtType::Function {
        name: String::from("f"),
        parameters: vec![],
        body: Box::new(Stmt { line: 1, stmt_type: StmtType::Block { body: vec![] }}),
    }}]), parse("func f() {}"));
}

#[test]
fn return_with_and_without_value() {
    assert_eq!(Ok(vec![Stmt { line: 1, stmt_type: StmtType::Function {
        name: String::from("f"),
        parameters: vec![],
        body: Box::new(Stmt { line: 1, stmt_type: StmtType::Block { body: vec![
            Stmt { line: 1, stmt_type: StmtType::Return { expression: Some(Expr { line: 1, expr_type: ExprType::Variable { name: String::from("a") }}) }},
        ]}}),
    }}]), parse("func f() {return a}"));
    assert_eq!(Ok(vec![Stmt { line: 1, stmt_type: StmtType::Function {
        name: String::from("f"),
        parameters: vec![],
        body: Box::new(Stmt { line: 1, stmt_type: StmtType::Block { body: vec![
            Stmt { line: 1, stmt_type: StmtType::Return { expression: None }},
        ]}}),
    }}]), parse("func f() {return}"));
}

#[test]
fn break_statement() {
    assert_eq!(Ok(vec![Stmt { line: 2, stmt_type: StmtType::Break }]), parse("\nbreak"));
}

#[test]
fn statements_carry_their_lines() {
    let source = "print\na\nvar b\n=\n1";
    assert_eq!(Ok(vec![
        Stmt { line: 1, stmt_type: StmtType::Print { expression: Expr { line: 2, expr_type: ExprType::Variable { name: String::from("a") }}}},
        Stmt { line: 5, stmt_type: StmtType::VarDecl { name: String::from("b"), value: Expr { line: 5, expr_type: ExprType::Literal { value: number(1.0) }}}},
    ]), parse(source));
}

#[test]
fn two_malformed_statements_give_two_errors() {
    assert_eq!(
        parse("var 1 = 2 print ) var b = 3"),
        Err(vec![ErrorType::ExpectedVariableName { line: 1 }, ErrorType::ExpectedExpression { line: 1 }])
    );
}

#[test]
fn empty_program() {
    assert_eq!(Ok(vec![]), parse(""));
}

#[test]
fn desugared_for_loop() {
    let body = Stmt { line: 3, stmt_type: StmtType::Block { body: vec![] }};
    let step = Stmt { line: 2, stmt_type: StmtType::Break };
    let first = Stmt { line: 1, stmt_type: StmtType::Break };
    let condition = Expr { line: 1, expr_type: ExprType::Literal { value: Literal::Bool(true) }};
    let whole = treewalk::parser::desugar_for(Some(first), condition, Some(step), body, 7);
    assert_eq!(whole, Stmt { line: 7, stmt_type: StmtType::Block { body: vec![
        Stmt { line: 1, stmt_type: StmtType::Break },
        Stmt { line: 7, stmt_type: StmtType::While {
            condition: Expr { line: 1, expr_type: ExprType::Literal { value: Literal::Bool(true) }},
            body: Box::new(Stmt { line: 7, stmt_type: StmtType::Block { body: vec![
                Stmt { line: 3, stmt_type: StmtType::Block { body: vec![] }},
                Stmt { line: 2, stmt_type: StmtType::Break },
            ]}}),
        }},
    ]}});
}

#[test]
fn desugared_for_loop_without_initialiser() {
    let body = Stmt { line: 3, stmt_type: StmtType::Block { body: vec![] }};
    let condition = Expr { line: 1, expr_type: ExprType::Literal { value: Literal::Bool(true) }};
    let whole = treewalk::parser::desugar_for(None, condition, None, body, 7);
    assert_eq!(whole, Stmt { line: 7, stmt_type: StmtType::Block { body: vec![
        Stmt { line: 7, stmt_type: StmtType::While {
            condition: Expr { line: 1, expr_type: ExprType::Literal { value: Literal::Bool(true) }},
            body: Box::new(Stmt { line: 7, stmt_type: StmtType::Block { body: vec![
                Stmt { line: 3, stmt_type: StmtType::Block { body: vec![] }},
            ]}}),
        }},
    ]}});
}
