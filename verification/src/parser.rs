//! The parser: from tokens to statements, by recursive descent.
//!
//! Each method reads what the function of the same name in [`crate::grammar`]
//! defines, from the parser's cursor on.

use vstd::prelude::*;
use crate::error::ErrorType;
use crate::expr::{
    expr_views, lemma_array_view, lemma_call_view, lemma_dictionary_view,
    lemma_push_expr, lemma_push_pair, pair_views, Expr, ExprType, ExprView, KeyValue,
};
use crate::grammar;
use crate::grammar::{consume, kind_at, next_in, Cursor, Parsed};
use crate::stmt::{
    lemma_block_view, lemma_push_name, lemma_push_stmt, name_views, optional_view, stmt_views, Stmt,
    StmtType, StmtTypeView, StmtView,
};
use crate::token::{token_views, Literal, Token, TokenType, TokenView};

verus! {

/// Reads a sequence of tokens into statements.
pub struct Parser {
    tokens: Vec<Token>,
    current_index: usize,
    current_line: usize,
}

/// The outcome of a method that read an expression.
pub open spec fn expr_outcome(result: Result<Expr, ErrorType>, cursor: Cursor) -> Parsed<ExprView> {
    Parsed {
        result: match result {
            Ok(e) => Ok(e@),
            Err(error) => Err(error),
        },
        cursor,
    }
}

/// The outcome of a method that read a statement.
pub open spec fn stmt_outcome(result: Result<Stmt, ErrorType>, cursor: Cursor) -> Parsed<StmtView> {
    Parsed {
        result: match result {
            Ok(s) => Ok(s@),
            Err(error) => Err(error),
        },
        cursor,
    }
}

/// The outcome of a method that read a list of expressions.
pub open spec fn list_outcome(result: Result<Vec<Expr>, ErrorType>, cursor: Cursor) -> Parsed<
    Seq<ExprView>,
> {
    Parsed {
        result: match result {
            Ok(list) => Ok(expr_views(list@)),
            Err(error) => Err(error),
        },
        cursor,
    }
}

/// The outcome of a method that read a token it asked for.
pub open spec fn unit_outcome(result: Result<(), ErrorType>, cursor: Cursor) -> Parsed<()> {
    Parsed { result, cursor }
}

impl Parser {
    /// The tokens that the parser reads.
    pub closed spec fn tokens(&self) -> Seq<TokenView> {
        token_views(self.tokens@)
    }

    /// Where the parser stands.
    pub closed spec fn cursor(&self) -> Cursor {
        Cursor { index: self.current_index as int, line: self.current_line }
    }

    /// The parser is in order: its tokens end with the end-of-text token, and it
    /// stands at one of them.
    pub open spec fn wf(&self) -> bool {
        &&& self.tokens().len() > 0
        &&& self.tokens().last().type_ == TokenType::Eof
        &&& 0 <= self.cursor().index < self.tokens().len()
    }

    /// How many tokens stand at or after the cursor.
    pub open spec fn remaining(&self) -> nat {
        grammar::remaining(self.tokens(), self.cursor())
    }

    /// `self` is `before` after some reading: in order, with the same tokens, and
    /// no earlier in them.
    pub open spec fn follows(&self, before: &Parser) -> bool {
        &&& self.wf()
        &&& self.tokens() == before.tokens()
        &&& self.cursor().index >= before.cursor().index
    }

    /// A parser at the start of `tokens`. Lines are counted from 1. The parser is
    /// in order, and so can read, where the tokens end with the end-of-text token,
    /// as the tokenizer's do.
    pub fn new(tokens: Vec<Token>) -> (parser: Parser)
        ensures
            parser.tokens() == token_views(tokens@),
            parser.cursor() == (Cursor { index: 0, line: 1 }),
            parser.wf() <==> tokens@.len() > 0 && tokens@.last().type_ == TokenType::Eof,
    {
        Parser { tokens, current_index: 0, current_line: 1 }
    }

    /// Reads statements up to the end-of-text token. Gives the statements where
    /// all could be read; else every error met, one for each statement that could
    /// not be read, in the order of the text.
    pub fn parse(&mut self) -> (result: Result<Vec<Stmt>, Vec<ErrorType>>)
        requires
            old(self).wf(),
        ensures
            final(self).follows(old(self)),
            ({
                let read = grammar::program(
                    old(self).tokens(),
                    old(self).cursor(),
                    Seq::empty(),
                    Seq::empty(),
                );
                &&& final(self).cursor() == read.cursor
                &&& match result {
                    Ok(statements) => read.errors.len() == 0 && stmt_views(statements@)
                        == read.statements,
                    Err(errors) => errors@.len() > 0 && errors@ == read.errors,
                }
            }),
    {
        let ghost ts = self.tokens();
        let ghost start = self.cursor();
        let mut statements: Vec<Stmt> = Vec::new();
        let mut errors: Vec<ErrorType> = Vec::new();
        assert(stmt_views(statements@) =~= Seq::empty());
        while !self.check_next(&[TokenType::Eof])
            invariant
                self.wf(),
                self.tokens() == ts,
                self.cursor().index >= start.index,
                grammar::program(ts, self.cursor(), stmt_views(statements@), errors@)
                    == grammar::program(ts, start, Seq::empty(), Seq::empty()),
            decreases self.remaining(),
        {
            proof {
                grammar::unfold_program(ts, self.cursor(), stmt_views(statements@), errors@);
            }
            let ghost here = self.cursor();
            match self.statement() {
                Ok(statement) => {
                    proof {
                        lemma_push_stmt(statements@, statement);
                    }
                    statements.push(statement);
                },
                Err(error) => {
                    errors.push(error);
                    self.sync();
                },
            }
        }
        proof {
            grammar::unfold_program(ts, self.cursor(), stmt_views(statements@), errors@);
        }
        if errors.len() == 0 {
            Ok(statements)
        } else {
            Err(errors)
        }
    }

    /// Moves on to where reading starts again after an error.
    fn sync(&mut self)
        requires
            old(self).wf(),
        ensures
            final(self).follows(old(self)),
            final(self).cursor() == grammar::sync(old(self).tokens(), old(self).cursor()),
            !grammar::starts_afresh(kind_at(old(self).tokens(), old(self).cursor()))
                ==> final(self).cursor().index > old(self).cursor().index,
    {
        let ghost ts = self.tokens();
        let ghost start = self.cursor();
        while !self.check_next(
            &[
                TokenType::Eof,
                TokenType::For,
                TokenType::Func,
                TokenType::If,
                TokenType::Print,
                TokenType::Return,
                TokenType::Var,
                TokenType::While,
            ],
        )
            invariant
                self.wf(),
                self.tokens() == ts,
                self.cursor().index >= start.index,
                grammar::sync(ts, self.cursor()) == grammar::sync(ts, start),
                self.cursor().index == start.index ==> self.cursor() == start,
            decreases self.remaining(),
        {
            proof {
                grammar::unfold_sync(ts, self.cursor());
            }
            assert(self.current_index + 1 < self.tokens.len());
            self.current_index += 1;
            self.current_line = self.tokens[self.current_index].line;
        }
        proof {
            grammar::unfold_sync(ts, self.cursor());
        }
    }

    /// A statement, as [`grammar::statement`] defines it.
    fn statement(&mut self) -> (result: Result<Stmt, ErrorType>)
        requires
            old(self).wf(),
        ensures
            final(self).follows(old(self)),
            stmt_outcome(result, final(self).cursor()) == grammar::statement(
                old(self).tokens(),
                old(self).cursor(),
            ),
            result is Ok ==> final(self).cursor().index > old(self).cursor().index,
            final(self).cursor().index == old(self).cursor().index
                ==> !grammar::is_statement_keyword(
                kind_at(old(self).tokens(), old(self).cursor()),
            ),
        decreases old(self).remaining(), 0int,
    {
        let ghost ts = self.tokens();
        let ghost start = self.cursor();
        proof {
            grammar::unfold_statement(ts, start);
        }
        if self.check_and_consume(&[TokenType::Break]).is_some() {
            Ok(Stmt { line: self.current_line, stmt_type: StmtType::Break })
        } else if self.check_and_consume(&[TokenType::For]).is_some() {
            self.for_()
        } else if self.check_and_consume(&[TokenType::Func]).is_some() {
            self.function()
        } else if self.check_and_consume(&[TokenType::If]).is_some() {
            self.if_()
        } else if self.check_and_consume(&[TokenType::Print]).is_some() {
            self.print()
        } else if self.check_and_consume(&[TokenType::Return]).is_some() {
            self.return_()
        } else if self.check_and_consume(&[TokenType::Var]).is_some() {
            self.var()
        } else if self.check_and_consume(&[TokenType::While]).is_some() {
            self.while_()
        } else {
            let line = self.current_line;
            let expression = self.expression()?;
            Ok(Stmt { line, stmt_type: StmtType::Expression { expression } })
        }
    }

    /// A block, as [`grammar::block`] defines it.
    fn block(&mut self) -> (result: Result<Stmt, ErrorType>)
        requires
            old(self).wf(),
        ensures
            final(self).follows(old(self)),
            stmt_outcome(result, final(self).cursor()) == grammar::block(
                old(self).tokens(),
                old(self).cursor(),
            ),
            result is Ok ==> final(self).cursor().index > old(self).cursor().index,
        decreases old(self).remaining(), 2int,
    {
        let ghost ts = self.tokens();
        let ghost start = self.cursor();
        proof {
            grammar::unfold_block(ts, start);
        }
        self.expect(TokenType::LeftCurly, '{')?;
        let ghost opened = self.cursor();
        let mut statements: Vec<Stmt> = Vec::new();
        assert(stmt_views(statements@) =~= Seq::empty());
        while !self.check_next(&[TokenType::RightCurly, TokenType::Eof])
            invariant
                self.wf(),
                self.tokens() == ts,
                self.cursor().index >= opened.index,
                opened.index > start.index,
                start == old(self).cursor(),
                ts == old(self).tokens(),
                grammar::block_rest(ts, self.cursor(), stmt_views(statements@))
                    == grammar::block_rest(ts, opened, Seq::empty()),
                grammar::expect(ts, start, TokenType::LeftCurly, '{') == grammar::done((), opened),
            decreases self.remaining(),
        {
            proof {
                grammar::unfold_block(ts, start);
                grammar::unfold_block_rest(ts, self.cursor(), stmt_views(statements@));
            }
            let statement = self.statement()?;
            proof {
                lemma_push_stmt(statements@, statement);
            }
            statements.push(statement);
        }
        proof {
            grammar::unfold_block_rest(ts, self.cursor(), stmt_views(statements@));
        }
        self.expect(TokenType::RightCurly, '}')?;
        proof {
            lemma_block_view(statements);
        }
        Ok(Stmt { line: self.current_line, stmt_type: StmtType::Block { body: statements } })
    }

    /// A `for` loop after its keyword, as [`grammar::for_`] defines it.
    fn for_(&mut self) -> (result: Result<Stmt, ErrorType>)
        requires
            old(self).wf(),
        ensures
            final(self).follows(old(self)),
            stmt_outcome(result, final(self).cursor()) == grammar::for_(
                old(self).tokens(),
                old(self).cursor(),
            ),
        decreases old(self).remaining(), 3int,
    {
        let ghost ts = self.tokens();
        let ghost start = self.cursor();
        proof {
            grammar::unfold_for_(ts, start);
        }
        self.expect(TokenType::LeftParen, '(')?;
        let mut initialiser: Option<Stmt> = None;
        if !self.check_next(&[TokenType::Semicolon]) {
            initialiser = Some(self.statement()?);
        }
        proof {
            grammar::unfold_for_condition(ts, self.cursor(), optional_view(initialiser));
        }
        if self.check_and_consume(&[TokenType::Semicolon]).is_none() {
            return Err(ErrorType::ExpectedSemicolonAfterInit { line: self.current_line });
        }
        // Without a condition the loop goes on for ever.
        let mut condition = Expr {
            line: self.current_line,
            expr_type: ExprType::Literal { value: Literal::Bool(true) },
        };
        if !self.check_next(&[TokenType::Semicolon]) {
            condition = self.expression()?;
        }
        proof {
            grammar::unfold_for_increment(
                ts,
                self.cursor(),
                optional_view(initialiser),
                condition@,
            );
        }
        if self.check_and_consume(&[TokenType::Semicolon]).is_none() {
            return Err(ErrorType::ExpectedSemicolonAfterCondition { line: self.current_line });
        }
        let mut increment: Option<Stmt> = None;
        if !self.check_next(&[TokenType::RightParen]) {
            increment = Some(self.statement()?);
        }
        proof {
            grammar::unfold_for_body(
                ts,
                self.cursor(),
                optional_view(initialiser),
                condition@,
                optional_view(increment),
            );
        }
        if self.check_and_consume(&[TokenType::RightParen]).is_none() {
            return Err(ErrorType::ExpectedParenAfterIncrement { line: self.current_line });
        }
        let for_body = self.block()?;

        Ok(desugar_for(initialiser, condition, increment, for_body, self.current_line))
    }

    /// A function declaration after its keyword, as [`grammar::function`] defines
    /// it.
    fn function(&mut self) -> (result: Result<Stmt, ErrorType>)
        requires
            old(self).wf(),
        ensures
            final(self).follows(old(self)),
            stmt_outcome(result, final(self).cursor()) == grammar::function(
                old(self).tokens(),
                old(self).cursor(),
            ),
        decreases old(self).remaining(), 3int,
    {
        let ghost ts = self.tokens();
        let ghost start = self.cursor();
        proof {
            grammar::unfold_function(ts, start);
        }
        if let Some(identifier) = self.check_and_consume(&[TokenType::Identifier]) {
            self.expect(TokenType::LeftParen, '(')?;
            let ghost opened = self.cursor();
            let mut parameters: Vec<String> = Vec::new();
            assert(name_views(parameters@) =~= Seq::empty());
            if !self.check_next(&[TokenType::RightParen]) {
                loop
                    invariant_except_break
                        grammar::parameters(ts, self.cursor(), name_views(parameters@))
                            == grammar::parameter_list(ts, opened),
                    invariant
                        self.wf(),
                        self.tokens() == ts,
                        ts == old(self).tokens(),
                        self.cursor().index >= opened.index,
                        opened.index > old(self).cursor().index,
                        start == old(self).cursor(),
                        kind_at(ts, old(self).cursor()) == TokenType::Identifier,
                        kind_at(ts, opened) != TokenType::RightParen,
                        identifier@ == ts[old(self).cursor().index],
                        grammar::expect(
                            ts,
                            consume(ts, old(self).cursor()),
                            TokenType::LeftParen,
                            '(',
                        ) == grammar::done((), opened),
                    ensures
                        self.wf(),
                        self.tokens() == ts,
                        self.cursor().index >= opened.index,
                        grammar::done(name_views(parameters@), self.cursor())
                            == grammar::parameter_list(ts, opened),
                    decreases self.remaining(),
                {
                    proof {
                        grammar::unfold_function(ts, start);
                        grammar::unfold_parameters(ts, self.cursor(), name_views(parameters@));
                    }
                    if let Some(parameter) = self.check_and_consume(&[TokenType::Identifier]) {
                        proof {
                            lemma_push_name(parameters@, parameter.lexeme);
                        }
                        parameters.push(parameter.lexeme);
                    } else {
                        return Err(ErrorType::ExpectedParameterName { line: self.current_line });
                    }
                    if self.check_and_consume(&[TokenType::Comma]).is_none() {
                        break;
                    }
                }
            }
            self.expect(TokenType::RightParen, ')')?;
            let body = self.block()?;
            Ok(
                Stmt {
                    line: self.current_line,
                    stmt_type: StmtType::Function {
                        name: identifier.lexeme,
                        parameters,
                        body: Box::new(body),
                    },
                },
            )
        } else {
            Err(ErrorType::ExpectedFunctionName { line: self.current_line })
        }
    }

    /// An `if` statement after its keyword, as [`grammar::if_`] defines it.
    fn if_(&mut self) -> (result: Result<Stmt, ErrorType>)
        requires
            old(self).wf(),
        ensures
            final(self).follows(old(self)),
            stmt_outcome(result, final(self).cursor()) == grammar::if_(
                old(self).tokens(),
                old(self).cursor(),
            ),
        decreases old(self).remaining(), 3int,
    {
        let ghost ts = self.tokens();
        let ghost start = self.cursor();
        proof {
            grammar::unfold_if_(ts, start);
        }
        self.expect(TokenType::LeftParen, '(')?;
        let condition = self.expression()?;
        self.expect(TokenType::RightParen, ')')?;
        let then_body = self.block()?;
        if self.check_and_consume(&[TokenType::Else]).is_some() {
            let else_body = self.else_body()?;
            Ok(
                Stmt {
                    line: self.current_line,
                    stmt_type: StmtType::If {
                        condition,
                        then_body: Box::new(then_body),
                        else_body: Some(Box::new(else_body)),
                    },
                },
            )
        } else {
            Ok(
                Stmt {
                    line: self.current_line,
                    stmt_type: StmtType::If {
                        condition,
                        then_body: Box::new(then_body),
                        else_body: None,
                    },
                },
            )
        }
    }

    /// What follows `else`, as [`grammar::else_body`] defines it.
    fn else_body(&mut self) -> (result: Result<Stmt, ErrorType>)
        requires
            old(self).wf(),
        ensures
            final(self).follows(old(self)),
            stmt_outcome(result, final(self).cursor()) == grammar::else_body(
                old(self).tokens(),
                old(self).cursor(),
            ),
        decreases old(self).remaining(), 3int,
    {
        let ghost ts = self.tokens();
        let ghost start = self.cursor();
        proof {
            grammar::unfold_else_body(ts, start);
        }
        if self.check_and_consume(&[TokenType::If]).is_some() {
            self.if_()
        } else {
            self.block()
        }
    }

    /// A `print` statement after its keyword, as [`grammar::print`] defines it.
    fn print(&mut self) -> (result: Result<Stmt, ErrorType>)
        requires
            old(self).wf(),
        ensures
            final(self).follows(old(self)),
            stmt_outcome(result, final(self).cursor()) == grammar::print(
                old(self).tokens(),
                old(self).cursor(),
            ),
    {
        let line = self.current_line;
        let expression = self.expression()?;
        Ok(Stmt { line, stmt_type: StmtType::Print { expression } })
    }

    /// A `return` statement after its keyword, as [`grammar::return_`] defines it.
    fn return_(&mut self) -> (result: Result<Stmt, ErrorType>)
        requires
            old(self).wf(),
        ensures
            final(self).follows(old(self)),
            stmt_outcome(result, final(self).cursor()) == grammar::return_(
                old(self).tokens(),
                old(self).cursor(),
            ),
    {
        match self.expression() {
            Ok(expression) => Ok(
                Stmt {
                    line: self.current_line,
                    stmt_type: StmtType::Return { expression: Some(expression) },
                },
            ),
            Err(ErrorType::ExpectedExpression { .. }) => Ok(
                Stmt { line: self.current_line, stmt_type: StmtType::Return { expression: None } },
            ),
            Err(error) => Err(error),
        }
    }

    /// A variable declaration after its keyword, as [`grammar::var`] defines it.
    fn var(&mut self) -> (result: Result<Stmt, ErrorType>)
        requires
            old(self).wf(),
        ensures
            final(self).follows(old(self)),
            stmt_outcome(result, final(self).cursor()) == grammar::var(
                old(self).tokens(),
                old(self).cursor(),
            ),
    {
        if let Some(identifier) = self.check_and_consume(&[TokenType::Identifier]) {
            self.expect(TokenType::Equal, '=')?;
            let value = self.expression()?;
            Ok(
                Stmt {
                    line: self.current_line,
                    stmt_type: StmtType::VarDecl { name: identifier.lexeme, value },
                },
            )
        } else {
            Err(ErrorType::ExpectedVariableName { line: self.current_line })
        }
    }

    /// A `while` loop after its keyword, as [`grammar::while_`] defines it.
    fn while_(&mut self) -> (result: Result<Stmt, ErrorType>)
        requires
            old(self).wf(),
        ensures
            final(self).follows(old(self)),
            stmt_outcome(result, final(self).cursor()) == grammar::while_(
                old(self).tokens(),
                old(self).cursor(),
            ),
        decreases old(self).remaining(), 3int,
    {
        let ghost ts = self.tokens();
        let ghost start = self.cursor();
        proof {
            grammar::unfold_while_(ts, start);
        }
        self.expect(TokenType::LeftParen, '(')?;
        let condition = self.expression()?;
        self.expect(TokenType::RightParen, ')')?;
        let body = self.block()?;
        Ok(
            Stmt {
                line: self.current_line,
                stmt_type: StmtType::While { condition, body: Box::new(body) },
            },
        )
    }

    /// An expression, as [`grammar::expression`] defines it.
    fn expression(&mut self) -> (result: Result<Expr, ErrorType>)
        requires
            old(self).wf(),
        ensures
            final(self).follows(old(self)),
            expr_outcome(result, final(self).cursor()) == grammar::expression(
                old(self).tokens(),
                old(self).cursor(),
            ),
            result is Ok ==> final(self).cursor().index > old(self).cursor().index,
        decreases old(self).remaining(), 19int,
    {
        let ghost ts = self.tokens();
        let ghost start = self.cursor();
        proof {
            grammar::unfold_expression(ts, start);
        }
        self.assignment()
    }

    /// An assignment, as [`grammar::assignment`] defines it.
    fn assignment(&mut self) -> (result: Result<Expr, ErrorType>)
        requires
            old(self).wf(),
        ensures
            final(self).follows(old(self)),
            expr_outcome(result, final(self).cursor()) == grammar::assignment(
                old(self).tokens(),
                old(self).cursor(),
            ),
            result is Ok ==> final(self).cursor().index > old(self).cursor().index,
        decreases old(self).remaining(), 18int,
    {
        let ghost ts = self.tokens();
        let ghost start = self.cursor();
        proof {
            grammar::unfold_assignment(ts, start);
        }
        let expr = self.or()?;
        if self.check_and_consume(&[TokenType::Equal]).is_some() {
            let value = self.assignment()?;
            Ok(
                Expr {
                    line: self.current_line,
                    expr_type: ExprType::Assignment {
                        target: Box::new(expr),
                        value: Box::new(value),
                    },
                },
            )
        } else {
            Ok(expr)
        }
    }

    /// An `or` expression: level 0 of [`grammar::binary`].
    fn or(&mut self) -> (result: Result<Expr, ErrorType>)
        requires
            old(self).wf(),
        ensures
            final(self).follows(old(self)),
            expr_outcome(result, final(self).cursor()) == grammar::binary(
                old(self).tokens(),
                old(self).cursor(),
                0,
            ),
            result is Ok ==> final(self).cursor().index > old(self).cursor().index,
        decreases old(self).remaining(), 17int,
    {
        let ghost ts = self.tokens();
        let ghost start = self.cursor();
        proof {
            grammar::unfold_binary(ts, start, 0);
        }
        let mut expr = self.and()?;
        loop
            invariant
                self.wf(),
                self.tokens() == ts,
                ts == old(self).tokens(),
                start == old(self).cursor(),
                self.cursor().index > start.index,
                grammar::binary_rest(ts, self.cursor(), 0, expr@) == grammar::binary(ts, start, 0),
            ensures
                self.wf(),
                self.tokens() == ts,
                self.cursor().index > start.index,
                grammar::done(expr@, self.cursor()) == grammar::binary(ts, start, 0),
            decreases self.remaining(),
        {
            proof {
                grammar::unfold_binary_rest(ts, self.cursor(), 0, expr@);
            }
            let operator = match self.check_and_consume(&[TokenType::Or]) {
                Some(token) => token,
                None => break,
            };
            let right = self.and()?;
            expr = Expr {
                line: self.current_line,
                expr_type: ExprType::Binary {
                    left: Box::new(expr),
                    operator,
                    right: Box::new(right),
                },
            };
        }
        Ok(expr)
    }

    /// An `and` expression: level 1 of [`grammar::binary`].
    fn and(&mut self) -> (result: Result<Expr, ErrorType>)
        requires
            old(self).wf(),
        ensures
            final(self).follows(old(self)),
            expr_outcome(result, final(self).cursor()) == grammar::binary(
                old(self).tokens(),
                old(self).cursor(),
                1,
            ),
            result is Ok ==> final(self).cursor().index > old(self).cursor().index,
        decreases old(self).remaining(), 15int,
    {
        let ghost ts = self.tokens();
        let ghost start = self.cursor();
        proof {
            grammar::unfold_binary(ts, start, 1);
        }
        let mut expr = self.equality()?;
        loop
            invariant
                self.wf(),
                self.tokens() == ts,
                ts == old(self).tokens(),
                start == old(self).cursor(),
                self.cursor().index > start.index,
                grammar::binary_rest(ts, self.cursor(), 1, expr@) == grammar::binary(ts, start, 1),
            ensures
                self.wf(),
                self.tokens() == ts,
                self.cursor().index > start.index,
                grammar::done(expr@, self.cursor()) == grammar::binary(ts, start, 1),
            decreases self.remaining(),
        {
            proof {
                grammar::unfold_binary_rest(ts, self.cursor(), 1, expr@);
            }
            let operator = match self.check_and_consume(&[TokenType::And]) {
                Some(token) => token,
                None => break,
            };
            let right = self.equality()?;
            expr = Expr {
                line: self.current_line,
                expr_type: ExprType::Binary {
                    left: Box::new(expr),
                    operator,
                    right: Box::new(right),
                },
            };
        }
        Ok(expr)
    }

    /// An equality: level 2 of [`grammar::binary`].
    fn equality(&mut self) -> (result: Result<Expr, ErrorType>)
        requires
            old(self).wf(),
        ensures
            final(self).follows(old(self)),
            expr_outcome(result, final(self).cursor()) == grammar::binary(
                old(self).tokens(),
                old(self).cursor(),
                2,
            ),
            result is Ok ==> final(self).cursor().index > old(self).cursor().index,
        decreases old(self).remaining(), 13int,
    {
        let ghost ts = self.tokens();
        let ghost start = self.cursor();
        proof {
            grammar::unfold_binary(ts, start, 2);
        }
        let mut expr = self.comparison()?;
        loop
            invariant
                self.wf(),
                self.tokens() == ts,
                ts == old(self).tokens(),
                start == old(self).cursor(),
                self.cursor().index > start.index,
                grammar::binary_rest(ts, self.cursor(), 2, expr@) == grammar::binary(ts, start, 2),
            ensures
                self.wf(),
                self.tokens() == ts,
                self.cursor().index > start.index,
                grammar::done(expr@, self.cursor()) == grammar::binary(ts, start, 2),
            decreases self.remaining(),
        {
            proof {
                grammar::unfold_binary_rest(ts, self.cursor(), 2, expr@);
            }
            let operator = match self.check_and_consume(
                &[TokenType::EqualEqual, TokenType::BangEqual],
            ) {
                Some(token) => token,
                None => break,
            };
            let right = self.comparison()?;
            expr = Expr {
                line: self.current_line,
                expr_type: ExprType::Binary {
                    left: Box::new(expr),
                    operator,
                    right: Box::new(right),
                },
            };
        }
        Ok(expr)
    }

    /// A comparison: level 3 of [`grammar::binary`].
    fn comparison(&mut self) -> (result: Result<Expr, ErrorType>)
        requires
            old(self).wf(),
        ensures
            final(self).follows(old(self)),
            expr_outcome(result, final(self).cursor()) == grammar::binary(
                old(self).tokens(),
                old(self).cursor(),
                3,
            ),
            result is Ok ==> final(self).cursor().index > old(self).cursor().index,
        decreases old(self).remaining(), 11int,
    {
        let ghost ts = self.tokens();
        let ghost start = self.cursor();
        proof {
            grammar::unfold_binary(ts, start, 3);
        }
        let mut expr = self.add_sub()?;
        loop
            invariant
                self.wf(),
                self.tokens() == ts,
                ts == old(self).tokens(),
                start == old(self).cursor(),
                self.cursor().index > start.index,
                grammar::binary_rest(ts, self.cursor(), 3, expr@) == grammar::binary(ts, start, 3),
            ensures
                self.wf(),
                self.tokens() == ts,
                self.cursor().index > start.index,
                grammar::done(expr@, self.cursor()) == grammar::binary(ts, start, 3),
            decreases self.remaining(),
        {
            proof {
                grammar::unfold_binary_rest(ts, self.cursor(), 3, expr@);
            }
            let operator = match self.check_and_consume(
                &[
                    TokenType::Greater,
                    TokenType::Less,
                    TokenType::GreaterEqual,
                    TokenType::LessEqual,
                ],
            ) {
                Some(token) => token,
                None => break,
            };
            let right = self.add_sub()?;
            expr = Expr {
                line: self.current_line,
                expr_type: ExprType::Binary {
                    left: Box::new(expr),
                    operator,
                    right: Box::new(right),
                },
            };
        }
        Ok(expr)
    }

    /// A sum or a difference: level 4 of [`grammar::binary`].
    fn add_sub(&mut self) -> (result: Result<Expr, ErrorType>)
        requires
            old(self).wf(),
        ensures
            final(self).follows(old(self)),
            expr_outcome(result, final(self).cursor()) == grammar::binary(
                old(self).tokens(),
                old(self).cursor(),
                4,
            ),
            result is Ok ==> final(self).cursor().index > old(self).cursor().index,
        decreases old(self).remaining(), 9int,
    {
        let ghost ts = self.tokens();
        let ghost start = self.cursor();
        proof {
            grammar::unfold_binary(ts, start, 4);
        }
        let mut expr = self.mult_div_mod()?;
        loop
            invariant
                self.wf(),
                self.tokens() == ts,
                ts == old(self).tokens(),
                start == old(self).cursor(),
                self.cursor().index > start.index,
                grammar::binary_rest(ts, self.cursor(), 4, expr@) == grammar::binary(ts, start, 4),
            ensures
                self.wf(),
                self.tokens() == ts,
                self.cursor().index > start.index,
                grammar::done(expr@, self.cursor()) == grammar::binary(ts, start, 4),
            decreases self.remaining(),
        {
            proof {
                grammar::unfold_binary_rest(ts, self.cursor(), 4, expr@);
            }
            let operator = match self.check_and_consume(&[TokenType::Plus, TokenType::Minus]) {
                Some(token) => token,
                None => break,
            };
            let right = self.mult_div_mod()?;
            expr = Expr {
                line: self.current_line,
                expr_type: ExprType::Binary {
                    left: Box::new(expr),
                    operator,
                    right: Box::new(right),
                },
            };
        }
        Ok(expr)
    }

    /// A product, a quotient or a remainder: level 5 of [`grammar::binary`].
    fn mult_div_mod(&mut self) -> (result: Result<Expr, ErrorType>)
        requires
            old(self).wf(),
        ensures
            final(self).follows(old(self)),
            expr_outcome(result, final(self).cursor()) == grammar::binary(
                old(self).tokens(),
                old(self).cursor(),
                5,
            ),
            result is Ok ==> final(self).cursor().index > old(self).cursor().index,
        decreases old(self).remaining(), 7int,
    {
        let ghost ts = self.tokens();
        let ghost start = self.cursor();
        proof {
            grammar::unfold_binary(ts, start, 5);
        }
        let mut expr = self.unary()?;
        loop
            invariant
                self.wf(),
                self.tokens() == ts,
                ts == old(self).tokens(),
                start == old(self).cursor(),
                self.cursor().index > start.index,
                grammar::binary_rest(ts, self.cursor(), 5, expr@) == grammar::binary(ts, start, 5),
            ensures
                self.wf(),
                self.tokens() == ts,
                self.cursor().index > start.index,
                grammar::done(expr@, self.cursor()) == grammar::binary(ts, start, 5),
            decreases self.remaining(),
        {
            proof {
                grammar::unfold_binary_rest(ts, self.cursor(), 5, expr@);
            }
            let operator = match self.check_and_consume(
                &[TokenType::Star, TokenType::Slash, TokenType::Percent],
            ) {
                Some(token) => token,
                None => break,
            };
            let right = self.unary()?;
            expr = Expr {
                line: self.current_line,
                expr_type: ExprType::Binary {
                    left: Box::new(expr),
                    operator,
                    right: Box::new(right),
                },
            };
        }
        Ok(expr)
    }

    /// A unary expression, as [`grammar::unary`] defines it.
    fn unary(&mut self) -> (result: Result<Expr, ErrorType>)
        requires
            old(self).wf(),
        ensures
            final(self).follows(old(self)),
            expr_outcome(result, final(self).cursor()) == grammar::unary(
                old(self).tokens(),
                old(self).cursor(),
            ),
            result is Ok ==> final(self).cursor().index > old(self).cursor().index,
        decreases old(self).remaining(), 5int,
    {
        let ghost ts = self.tokens();
        let ghost start = self.cursor();
        proof {
            grammar::unfold_unary(ts, start);
        }
        if let Some(operator) = self.check_and_consume(&[TokenType::Bang, TokenType::Minus]) {
            let right = self.unary()?;
            Ok(
                Expr {
                    line: self.current_line,
                    expr_type: ExprType::Unary { operator, right: Box::new(right) },
                },
            )
        } else {
            self.element()
        }
    }

    /// An element expression, as [`grammar::element`] defines it.
    fn element(&mut self) -> (result: Result<Expr, ErrorType>)
        requires
            old(self).wf(),
        ensures
            final(self).follows(old(self)),
            expr_outcome(result, final(self).cursor()) == grammar::element(
                old(self).tokens(),
                old(self).cursor(),
            ),
            result is Ok ==> final(self).cursor().index > old(self).cursor().index,
        decreases old(self).remaining(), 4int,
    {
        let ghost ts = self.tokens();
        let ghost start = self.cursor();
        proof {
            grammar::unfold_element(ts, start);
        }
        let mut expr = self.call()?;
        loop
            invariant
                self.wf(),
                self.tokens() == ts,
                ts == old(self).tokens(),
                start == old(self).cursor(),
                self.cursor().index > start.index,
                grammar::element_rest(ts, self.cursor(), expr@) == grammar::element(ts, start),
            ensures
                self.wf(),
                self.tokens() == ts,
                self.cursor().index > start.index,
                grammar::done(expr@, self.cursor()) == grammar::element(ts, start),
            decreases self.remaining(),
        {
            proof {
                grammar::unfold_element_rest(ts, self.cursor(), expr@);
            }
            if self.check_and_consume(&[TokenType::LeftSquare]).is_none() {
                break;
            }
            let index = self.expression()?;
            expr = Expr {
                line: self.current_line,
                expr_type: ExprType::Element { array: Box::new(expr), index: Box::new(index) },
            };
            self.expect(TokenType::RightSquare, ']')?;
        }
        Ok(expr)
    }

    /// A call expression, as [`grammar::call`] defines it.
    fn call(&mut self) -> (result: Result<Expr, ErrorType>)
        requires
            old(self).wf(),
        ensures
            final(self).follows(old(self)),
            expr_outcome(result, final(self).cursor()) == grammar::call(
                old(self).tokens(),
                old(self).cursor(),
            ),
            result is Ok ==> final(self).cursor().index > old(self).cursor().index,
        decreases old(self).remaining(), 2int,
    {
        let ghost ts = self.tokens();
        let ghost start = self.cursor();
        proof {
            grammar::unfold_call(ts, start);
        }
        let mut expr = self.primary()?;
        loop
            invariant
                self.wf(),
                self.tokens() == ts,
                ts == old(self).tokens(),
                start == old(self).cursor(),
                self.cursor().index > start.index,
                grammar::call_rest(ts, self.cursor(), expr@) == grammar::call(ts, start),
            ensures
                self.wf(),
                self.tokens() == ts,
                self.cursor().index > start.index,
                grammar::done(expr@, self.cursor()) == grammar::call(ts, start),
            decreases self.remaining(),
        {
            proof {
                grammar::unfold_call_rest(ts, self.cursor(), expr@);
            }
            if self.check_and_consume(&[TokenType::LeftParen]).is_none() {
                break;
            }
            let arguments = self.arguments(TokenType::RightParen)?;
            self.expect(TokenType::RightParen, ')')?;
            proof {
                lemma_call_view(expr, arguments);
            }
            expr = Expr {
                line: self.current_line,
                expr_type: ExprType::Call { callee: Box::new(expr), arguments },
            };
        }
        Ok(expr)
    }

    /// The expressions of a list that a token of kind `closing` ends, as
    /// [`grammar::arguments`] defines them.
    fn arguments(&mut self, closing: TokenType) -> (result: Result<Vec<Expr>, ErrorType>)
        requires
            old(self).wf(),
        ensures
            final(self).follows(old(self)),
            list_outcome(result, final(self).cursor()) == grammar::arguments(
                old(self).tokens(),
                old(self).cursor(),
                closing,
            ),
        decreases old(self).remaining(), 21int,
    {
        let ghost ts = self.tokens();
        let ghost start = self.cursor();
        proof {
            grammar::unfold_arguments(ts, start, closing);
        }
        let mut list: Vec<Expr> = Vec::new();
        assert(expr_views(list@) =~= Seq::empty());
        if !self.check_next(&[closing]) {
            loop
                invariant_except_break
                    grammar::items(ts, self.cursor(), expr_views(list@)) == grammar::arguments(
                        ts,
                        start,
                        closing,
                    ),
                invariant
                    self.wf(),
                    self.tokens() == ts,
                    ts == old(self).tokens(),
                    start == old(self).cursor(),
                    self.cursor().index >= start.index,
                ensures
                    self.wf(),
                    self.tokens() == ts,
                    self.cursor().index >= start.index,
                    grammar::done(expr_views(list@), self.cursor()) == grammar::arguments(
                        ts,
                        start,
                        closing,
                    ),
                decreases self.remaining(),
            {
                proof {
                    grammar::unfold_items(ts, self.cursor(), expr_views(list@));
                }
                let item = self.expression()?;
                proof {
                    lemma_push_expr(list@, item);
                }
                list.push(item);
                if self.check_and_consume(&[TokenType::Comma]).is_none() {
                    break;
                }
            }
        }
        Ok(list)
    }

    /// A primary expression, as [`grammar::primary`] defines it.
    fn primary(&mut self) -> (result: Result<Expr, ErrorType>)
        requires
            old(self).wf(),
        ensures
            final(self).follows(old(self)),
            expr_outcome(result, final(self).cursor()) == grammar::primary(
                old(self).tokens(),
                old(self).cursor(),
            ),
            result is Ok ==> final(self).cursor().index > old(self).cursor().index,
        decreases old(self).remaining(), 0int,
    {
        let ghost ts = self.tokens();
        let ghost start = self.cursor();
        proof {
            grammar::unfold_primary(ts, start);
        }
        if self.check_and_consume(&[TokenType::True]).is_some() {
            Ok(
                Expr {
                    line: self.current_line,
                    expr_type: ExprType::Literal { value: Literal::Bool(true) },
                },
            )
        } else if self.check_and_consume(&[TokenType::False]).is_some() {
            Ok(
                Expr {
                    line: self.current_line,
                    expr_type: ExprType::Literal { value: Literal::Bool(false) },
                },
            )
        } else if self.check_and_consume(&[TokenType::Null]).is_some() {
            Ok(Expr { line: self.current_line, expr_type: ExprType::Literal { value: Literal::Null } })
        } else if let Some(token) = self.check_and_consume(
            &[TokenType::String_, TokenType::Number],
        ) {
            Ok(
                Expr {
                    line: self.current_line,
                    expr_type: ExprType::Literal { value: token.literal },
                },
            )
        } else if self.check_and_consume(&[TokenType::LeftParen]).is_some() {
            let expr = self.expression()?;
            self.expect(TokenType::RightParen, ')')?;
            Ok(
                Expr {
                    line: self.current_line,
                    expr_type: ExprType::Grouping { expression: Box::new(expr) },
                },
            )
        } else if self.check_and_consume(&[TokenType::LeftSquare]).is_some() {
            let elements = self.arguments(TokenType::RightSquare)?;
            self.expect(TokenType::RightSquare, ']')?;
            proof {
                lemma_array_view(elements);
            }
            Ok(Expr { line: self.current_line, expr_type: ExprType::Array { elements } })
        } else if self.check_and_consume(&[TokenType::LeftCurly]).is_some() {
            let ghost opened = self.cursor();
            let mut elements: Vec<KeyValue<Expr>> = Vec::new();
            assert(pair_views(elements@) =~= Seq::empty());
            if !self.check_next(&[TokenType::RightCurly]) {
                loop
                    invariant_except_break
                        grammar::pairs(ts, self.cursor(), pair_views(elements@)) == grammar::pairs(
                            ts,
                            opened,
                            Seq::empty(),
                        ),
                    invariant
                        self.wf(),
                        self.tokens() == ts,
                        ts == old(self).tokens(),
                        start == old(self).cursor(),
                        opened == consume(ts, start),
                        kind_at(ts, start) == TokenType::LeftCurly,
                        kind_at(ts, opened) != TokenType::RightCurly,
                        self.cursor().index >= opened.index,
                    ensures
                        self.wf(),
                        self.tokens() == ts,
                        self.cursor().index >= opened.index,
                        grammar::done(pair_views(elements@), self.cursor()) == grammar::pairs(
                            ts,
                            opened,
                            Seq::empty(),
                        ),
                    decreases self.remaining(),
                {
                    proof {
                        grammar::unfold_primary(ts, start);
                        grammar::unfold_pairs(ts, self.cursor(), pair_views(elements@));
                    }
                    let key = self.expression()?;
                    if self.check_and_consume(&[TokenType::Colon]).is_none() {
                        return Err(ErrorType::ExpectedColonAfterKey { line: self.current_line });
                    }
                    let value = self.expression()?;
                    let pair = KeyValue { key, value };
                    proof {
                        lemma_push_pair(elements@, pair);
                    }
                    elements.push(pair);
                    if self.check_and_consume(&[TokenType::Comma]).is_none() {
                        break;
                    }
                }
            }
            self.expect(TokenType::RightCurly, '}')?;
            proof {
                lemma_dictionary_view(elements);
            }
            Ok(Expr { line: self.current_line, expr_type: ExprType::Dictionary { elements } })
        } else if let Some(identifier) = self.check_and_consume(&[TokenType::Identifier]) {
            Ok(
                Expr {
                    line: self.current_line,
                    expr_type: ExprType::Variable { name: identifier.lexeme },
                },
            )
        } else {
            Err(ErrorType::ExpectedExpression { line: self.current_line })
        }
    }

    /// Reads the next token where there is one and its kind is one of `kinds`, and
    /// gives a copy of it; else reads nothing. A parser that is in order stays so,
    /// but by reading the end-of-text token.
    fn check_and_consume(&mut self, kinds: &[TokenType]) -> (token: Option<Token>)
        ensures
            final(self).tokens() == old(self).tokens(),
            match token {
                Some(read) => {
                    &&& next_in(old(self).tokens(), old(self).cursor(), kinds@)
                    &&& read@ == old(self).tokens()[old(self).cursor().index]
                    &&& final(self).cursor() == consume(old(self).tokens(), old(self).cursor())
                },
                None => {
                    &&& !next_in(old(self).tokens(), old(self).cursor(), kinds@)
                    &&& final(self).cursor() == old(self).cursor()
                },
            },
            old(self).wf() && !kinds@.contains(TokenType::Eof) ==> final(self).follows(old(self)),
    {
        if self.current_index < self.tokens.len() {
            let token = &self.tokens[self.current_index];
            if has_kind(kinds, token.type_) {
                let read = token.clone();
                self.current_index += 1;
                self.current_line = read.line;
                return Some(read);
            }
        }
        None
    }

    /// Whether there is a next token and its kind is one of `kinds`.
    fn check_next(&self, kinds: &[TokenType]) -> (found: bool)
        ensures
            found == next_in(self.tokens(), self.cursor(), kinds@),
    {
        self.current_index < self.tokens.len() && has_kind(
            kinds,
            self.tokens[self.current_index].type_,
        )
    }

    /// Reads one token of kind `kind`, written `symbol`, as [`grammar::expect`]
    /// defines it. A parser that is in order stays so, but by reading the
    /// end-of-text token.
    fn expect(&mut self, kind: TokenType, symbol: char) -> (result: Result<(), ErrorType>)
        ensures
            final(self).tokens() == old(self).tokens(),
            unit_outcome(result, final(self).cursor()) == grammar::expect(
                old(self).tokens(),
                old(self).cursor(),
                kind,
                symbol,
            ),
            result is Ok ==> final(self).cursor().index > old(self).cursor().index,
            old(self).wf() && kind != TokenType::Eof ==> final(self).follows(old(self)),
    {
        if self.check_and_consume(&[kind]).is_none() {
            return Err(ErrorType::ExpectedCharacter { expected: symbol, line: self.current_line });
        }
        Ok(())
    }
}

/// Writes a `for` loop as the statements that stand for it, which all carry the
/// line `line`: a block of the `initialiser`, where there is one, and a `while`
/// loop on `condition` whose body is a block of `body` and then `increment`.
/// Without an initialiser the outer block holds the loop alone. The loop's own
/// body stays a block of its own, so that what it declares lasts for one round
/// only.
pub fn desugar_for(
    initialiser: Option<Stmt>,
    condition: Expr,
    increment: Option<Stmt>,
    body: Stmt,
    line: usize,
) -> (statement: Stmt)
    ensures
        statement@ == grammar::desugar_for(
            optional_view(initialiser),
            condition@,
            optional_view(increment),
            body@,
            line,
        ),
{
    let ghost body_view = body@;
    let ghost increment_view = optional_view(increment);
    let ghost condition_view = condition@;
    let mut while_body_vec: Vec<Stmt> = Vec::new();
    while_body_vec.push(body);
    if let Some(step) = increment {
        while_body_vec.push(step);
    }
    proof {
        lemma_block_view(while_body_vec);
        assert(stmt_views(while_body_vec@) =~= match increment_view {
            Some(step) => seq![body_view, step],
            None => seq![body_view],
        });
    }
    let while_body = Stmt { line, stmt_type: StmtType::Block { body: while_body_vec } };
    let ghost while_body_view = while_body@;
    let while_loop = Stmt {
        line,
        stmt_type: StmtType::While { condition, body: Box::new(while_body) },
    };
    let ghost while_loop_view = while_loop@;
    assert(while_loop_view == StmtView {
        line,
        stmt_type: StmtTypeView::While {
            condition: condition_view,
            body: Box::new(while_body_view),
        },
    });
    let ghost initialiser_view = optional_view(initialiser);
    let mut outer: Vec<Stmt> = Vec::new();
    if let Some(first) = initialiser {
        outer.push(first);
    }
    outer.push(while_loop);
    proof {
        lemma_block_view(outer);
        assert(stmt_views(outer@) =~= match initialiser_view {
            Some(first) => seq![first, while_loop_view],
            None => seq![while_loop_view],
        });
    }
    Stmt { line, stmt_type: StmtType::Block { body: outer } }
}

/// Whether `kind` is one of `kinds`.
fn has_kind(kinds: &[TokenType], kind: TokenType) -> (found: bool)
    ensures
        found == kinds@.contains(kind),
{
    let mut k: usize = 0;
    while k < kinds.len()
        invariant
            k <= kinds@.len(),
            forall|j: int| 0 <= j < k ==> kinds@[j] != kind,
        decreases kinds@.len() - k,
    {
        if kinds[k] == kind {
            return true;
        }
        k += 1;
    }
    false
}

} // verus!
