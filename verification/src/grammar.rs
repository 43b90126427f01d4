//! The syntax of the language: which tree a sequence of tokens stands for.
//!
//! Every function here reads tokens from a cursor on and gives what it read, or the
//! error it met, with the cursor it reached. From loosest to tightest binding:
//!
//! ```text
//! assignment -> or ( "=" assignment )?
//! or         -> and ( "or" and )*
//! and        -> equality ( "and" equality )*
//! equality   -> comparison ( ( "==" | "!=" ) comparison )*
//! comparison -> addsub ( ( ">" | "<" | ">=" | "<=" ) addsub )*
//! addsub     -> muldivmod ( ( "+" | "-" ) muldivmod )*
//! muldivmod  -> unary ( ( "*" | "/" | "%" ) unary )*
//! unary      -> ( "!" | "-" ) unary | element
//! element    -> call ( "[" expression "]" )*
//! call       -> primary ( "(" arguments? ")" )*
//! primary    -> literal | "(" expression ")" | "[" arguments? "]"
//!             | "{" ( expression ":" expression ( "," expression ":" expression )* )? "}"
//!             | identifier
//! ```

use vstd::prelude::*;
use crate::error::ErrorType;
use crate::expr::{ExprTypeView, ExprView, KeyValue};
use crate::stmt::{StmtTypeView, StmtView};
use crate::token::{LiteralView, TokenType, TokenView};

verus! {

/// A place in a token sequence: the index of the next token, and the line of the
/// token read last.
pub struct Cursor {
    pub index: int,
    pub line: usize,
}

/// What was read, or the error met, and the cursor reached.
pub struct Parsed<T> {
    pub result: Result<T, ErrorType>,
    pub cursor: Cursor,
}

impl<T> Parsed<T> {
    /// This outcome, for a reading that began at `start`. Reading never moves a
    /// cursor backwards, as [`crate::shape`] proves, so this is the outcome itself;
    /// written at a call, it lets the definitions below be seen to end.
    pub open spec fn after(self, start: Cursor) -> Parsed<T> {
        if self.cursor.index >= start.index {
            self
        } else {
            Parsed { result: self.result, cursor: start }
        }
    }
}

/// The outcome of having read `value` and reached `cursor`.
pub open spec fn done<T>(value: T, cursor: Cursor) -> Parsed<T> {
    Parsed { result: Ok(value), cursor }
}

/// The outcome of having met `error` at `cursor`.
pub open spec fn failed<T>(error: ErrorType, cursor: Cursor) -> Parsed<T> {
    Parsed { result: Err(error), cursor }
}

/// How many tokens stand at or after the cursor.
pub open spec fn remaining(ts: Seq<TokenView>, c: Cursor) -> nat {
    if c.index <= ts.len() {
        (ts.len() - c.index) as nat
    } else {
        0
    }
}

/// The kind of the token at the cursor. Past the last token it is that of the
/// end of the text.
pub open spec fn kind_at(ts: Seq<TokenView>, c: Cursor) -> TokenType {
    if 0 <= c.index < ts.len() {
        ts[c.index].type_
    } else {
        TokenType::Eof
    }
}

/// Whether a token stands at the cursor and its kind is one of `kinds`.
pub open spec fn next_in(ts: Seq<TokenView>, c: Cursor, kinds: Seq<TokenType>) -> bool {
    0 <= c.index < ts.len() && kinds.contains(ts[c.index].type_)
}

/// The cursor after the token at `c` has been read.
pub open spec fn consume(ts: Seq<TokenView>, c: Cursor) -> Cursor {
    Cursor { index: c.index + 1, line: ts[c.index].line }
}

/// Reads one token of kind `kind`, written `symbol`; where no token stands at
/// the cursor or the token is of another kind, the error that names `symbol` and
/// the line of the token read last.
pub open spec fn expect(ts: Seq<TokenView>, c: Cursor, kind: TokenType, symbol: char) -> Parsed<
    (),
> {
    if 0 <= c.index < ts.len() && ts[c.index].type_ == kind {
        done((), consume(ts, c))
    } else {
        failed(ErrorType::ExpectedCharacter { expected: symbol, line: c.line }, c)
    }
}

/// Whether `kind` is an operator of level `level` of the binary expressions: 0
/// for `or`, 1 for `and`, 2 for equality, 3 for comparison, 4 for sums, 5 and above
/// for products.
pub open spec fn is_operator(level: nat, kind: TokenType) -> bool {
    if level == 0 {
        kind == TokenType::Or
    } else if level == 1 {
        kind == TokenType::And
    } else if level == 2 {
        kind == TokenType::EqualEqual || kind == TokenType::BangEqual
    } else if level == 3 {
        kind == TokenType::Greater || kind == TokenType::Less || kind == TokenType::GreaterEqual
            || kind == TokenType::LessEqual
    } else if level == 4 {
        kind == TokenType::Plus || kind == TokenType::Minus
    } else {
        kind == TokenType::Star || kind == TokenType::Slash || kind == TokenType::Percent
    }
}

/// The place of a level of binary expressions in the order in which the
/// definitions call each other.
pub open spec fn binary_rank(level: nat) -> int {
    if level >= 5 {
        7
    } else {
        17 - 2 * level
    }
}

/// A constant, as an expression.
pub open spec fn literal(value: LiteralView, line: usize) -> ExprView {
    ExprView { line, expr_type: ExprTypeView::Literal { value } }
}

/// An expression: an assignment.
#[verifier::opaque]
pub open spec fn expression(ts: Seq<TokenView>, c: Cursor) -> Parsed<ExprView>
    decreases remaining(ts, c), 19int,
{
    assignment(ts, c)
}

/// An `or` expression, and after a `=` the assignment of another assignment to it:
/// `a = b = 5` is `a = (b = 5)`. Whether the left side can be assigned to is not
/// asked here.
#[verifier::opaque]
pub open spec fn assignment(ts: Seq<TokenView>, c: Cursor) -> Parsed<ExprView>
    decreases remaining(ts, c), 18int,
{
    let first = binary(ts, c, 0).after(c);
    match first.result {
        Ok(target) => if kind_at(ts, first.cursor) == TokenType::Equal {
            let rest = assignment(ts, consume(ts, first.cursor));
            match rest.result {
                Ok(value) => done(
                    ExprView {
                        line: rest.cursor.line,
                        expr_type: ExprTypeView::Assignment {
                            target: Box::new(target),
                            value: Box::new(value),
                        },
                    },
                    rest.cursor,
                ),
                Err(_) => rest,
            }
        } else {
            first
        },
        Err(_) => first,
    }
}

/// A binary expression of level `level`: an operand of the next level, then any
/// number of operators of this level, each with another operand.
#[verifier::opaque]
pub open spec fn binary(ts: Seq<TokenView>, c: Cursor, level: nat) -> Parsed<ExprView>
    decreases remaining(ts, c), binary_rank(level),
{
    let first = (if level >= 5 {
        unary(ts, c)
    } else {
        binary(ts, c, level + 1)
    }).after(c);
    match first.result {
        Ok(left) => binary_rest(ts, first.cursor, level, left),
        Err(_) => first,
    }
}

/// What follows the operand `left` in a binary expression of level `level`. The
/// operators group to the left: each one takes all that was read before it as its
/// left side.
#[verifier::opaque]
pub open spec fn binary_rest(ts: Seq<TokenView>, c: Cursor, level: nat, left: ExprView) -> Parsed<
    ExprView,
>
    decreases remaining(ts, c), binary_rank(level) - 1,
{
    if is_operator(level, kind_at(ts, c)) {
        let operator = ts[c.index];
        let start = consume(ts, c);
        let second = (if level >= 5 {
            unary(ts, start)
        } else {
            binary(ts, start, level + 1)
        }).after(start);
        match second.result {
            Ok(right) => binary_rest(
                ts,
                second.cursor,
                level,
                ExprView {
                    line: second.cursor.line,
                    expr_type: ExprTypeView::Binary {
                        left: Box::new(left),
                        operator,
                        right: Box::new(right),
                    },
                },
            ),
            Err(_) => second,
        }
    } else {
        done(left, c)
    }
}

/// A `!` or a `-` before a unary expression, or else an element expression.
#[verifier::opaque]
pub open spec fn unary(ts: Seq<TokenView>, c: Cursor) -> Parsed<ExprView>
    decreases remaining(ts, c), 5int,
{
    if (kind_at(ts, c) == TokenType::Bang || kind_at(ts, c) == TokenType::Minus) {
        let inner = unary(ts, consume(ts, c));
        match inner.result {
            Ok(right) => done(
                ExprView {
                    line: inner.cursor.line,
                    expr_type: ExprTypeView::Unary { operator: ts[c.index], right: Box::new(right) },
                },
                inner.cursor,
            ),
            Err(_) => inner,
        }
    } else {
        element(ts, c)
    }
}

/// A call expression, then any number of indices in square brackets.
#[verifier::opaque]
pub open spec fn element(ts: Seq<TokenView>, c: Cursor) -> Parsed<ExprView>
    decreases remaining(ts, c), 4int,
{
    let first = call(ts, c).after(c);
    match first.result {
        Ok(array) => element_rest(ts, first.cursor, array),
        Err(_) => first,
    }
}

/// The indices that follow `array`. An element expression carries the line reached
/// before its closing bracket.
#[verifier::opaque]
pub open spec fn element_rest(ts: Seq<TokenView>, c: Cursor, array: ExprView) -> Parsed<ExprView>
    decreases remaining(ts, c), 3int,
{
    if kind_at(ts, c) == TokenType::LeftSquare {
        let start = consume(ts, c);
        let inner = expression(ts, start).after(start);
        match inner.result {
            Ok(index) => {
                let closed = expect(ts, inner.cursor, TokenType::RightSquare, ']');
                match closed.result {
                    Ok(_) => element_rest(
                        ts,
                        closed.cursor,
                        ExprView {
                            line: inner.cursor.line,
                            expr_type: ExprTypeView::Element {
                                array: Box::new(array),
                                index: Box::new(index),
                            },
                        },
                    ),
                    Err(error) => failed(error, closed.cursor),
                }
            },
            Err(_) => inner,
        }
    } else {
        done(array, c)
    }
}

/// A primary expression, then any number of argument lists in round brackets.
#[verifier::opaque]
pub open spec fn call(ts: Seq<TokenView>, c: Cursor) -> Parsed<ExprView>
    decreases remaining(ts, c), 2int,
{
    let first = primary(ts, c).after(c);
    match first.result {
        Ok(callee) => call_rest(ts, first.cursor, callee),
        Err(_) => first,
    }
}

/// The argument lists that follow `callee`.
#[verifier::opaque]
pub open spec fn call_rest(ts: Seq<TokenView>, c: Cursor, callee: ExprView) -> Parsed<ExprView>
    decreases remaining(ts, c), 1int,
{
    if kind_at(ts, c) == TokenType::LeftParen {
        let start = consume(ts, c);
        let list = arguments(ts, start, TokenType::RightParen).after(start);
        match list.result {
            Ok(arguments) => {
                let closed = expect(ts, list.cursor, TokenType::RightParen, ')');
                match closed.result {
                    Ok(_) => call_rest(
                        ts,
                        closed.cursor,
                        ExprView {
                            line: closed.cursor.line,
                            expr_type: ExprTypeView::Call { callee: Box::new(callee), arguments },
                        },
                    ),
                    Err(error) => failed(error, closed.cursor),
                }
            },
            Err(error) => failed(error, list.cursor),
        }
    } else {
        done(callee, c)
    }
}

/// The expressions of a list that a token of kind `closing` ends: none where that
/// token comes first, else one or more with commas between them.
#[verifier::opaque]
pub open spec fn arguments(ts: Seq<TokenView>, c: Cursor, closing: TokenType) -> Parsed<
    Seq<ExprView>,
>
    decreases remaining(ts, c), 21int,
{
    if kind_at(ts, c) == closing {
        done(Seq::empty(), c)
    } else {
        items(ts, c, Seq::empty())
    }
}

/// One or more expressions with commas between them, after those in `read`.
#[verifier::opaque]
pub open spec fn items(ts: Seq<TokenView>, c: Cursor, read: Seq<ExprView>) -> Parsed<
    Seq<ExprView>,
>
    decreases remaining(ts, c), 20int,
{
    let one = expression(ts, c).after(c);
    match one.result {
        Ok(item) => if kind_at(ts, one.cursor) == TokenType::Comma {
            items(ts, consume(ts, one.cursor), read.push(item))
        } else {
            done(read.push(item), one.cursor)
        },
        Err(error) => failed(error, one.cursor),
    }
}

/// One or more pairs of a key, a colon and a value, with commas between the pairs,
/// after those in `read`.
#[verifier::opaque]
pub open spec fn pairs(ts: Seq<TokenView>, c: Cursor, read: Seq<KeyValue<ExprView>>) -> Parsed<
    Seq<KeyValue<ExprView>>,
>
    decreases remaining(ts, c), 20int,
{
    let first = expression(ts, c).after(c);
    match first.result {
        Ok(key) => if kind_at(ts, first.cursor) == TokenType::Colon {
            let start = consume(ts, first.cursor);
            let second = expression(ts, start).after(start);
            match second.result {
                Ok(value) => if kind_at(ts, second.cursor) == TokenType::Comma {
                    pairs(ts, consume(ts, second.cursor), read.push(KeyValue { key, value }))
                } else {
                    done(read.push(KeyValue { key, value }), second.cursor)
                },
                Err(error) => failed(error, second.cursor),
            }
        } else {
            failed(ErrorType::ExpectedColonAfterKey { line: first.cursor.line }, first.cursor)
        },
        Err(error) => failed(error, first.cursor),
    }
}

/// A constant, an expression in round brackets, an array in square brackets, a
/// dictionary in curly brackets, or a name.
#[verifier::opaque]
pub open spec fn primary(ts: Seq<TokenView>, c: Cursor) -> Parsed<ExprView>
    decreases remaining(ts, c), 0int,
{
    if kind_at(ts, c) == TokenType::True {
        done(literal(LiteralView::Bool(true), consume(ts, c).line), consume(ts, c))
    } else if kind_at(ts, c) == TokenType::False {
        done(literal(LiteralView::Bool(false), consume(ts, c).line), consume(ts, c))
    } else if kind_at(ts, c) == TokenType::Null {
        done(literal(LiteralView::Null, consume(ts, c).line), consume(ts, c))
    } else if (kind_at(ts, c) == TokenType::String_ || kind_at(ts, c) == TokenType::Number) {
        done(literal(ts[c.index].literal, consume(ts, c).line), consume(ts, c))
    } else if kind_at(ts, c) == TokenType::LeftParen {
        let inner = expression(ts, consume(ts, c));
        match inner.result {
            Ok(expression) => {
                let closed = expect(ts, inner.cursor, TokenType::RightParen, ')');
                match closed.result {
                    Ok(_) => done(
                        ExprView {
                            line: closed.cursor.line,
                            expr_type: ExprTypeView::Grouping { expression: Box::new(expression) },
                        },
                        closed.cursor,
                    ),
                    Err(error) => failed(error, closed.cursor),
                }
            },
            Err(_) => inner,
        }
    } else if kind_at(ts, c) == TokenType::LeftSquare {
        let list = arguments(ts, consume(ts, c), TokenType::RightSquare);
        match list.result {
            Ok(elements) => {
                let closed = expect(ts, list.cursor, TokenType::RightSquare, ']');
                match closed.result {
                    Ok(_) => done(
                        ExprView {
                            line: closed.cursor.line,
                            expr_type: ExprTypeView::Array { elements },
                        },
                        closed.cursor,
                    ),
                    Err(error) => failed(error, closed.cursor),
                }
            },
            Err(error) => failed(error, list.cursor),
        }
    } else if kind_at(ts, c) == TokenType::LeftCurly {
        let start = consume(ts, c);
        let list = if kind_at(ts, start) == TokenType::RightCurly {
            done(Seq::empty(), start)
        } else {
            pairs(ts, start, Seq::empty())
        };
        match list.result {
            Ok(elements) => {
                let closed = expect(ts, list.cursor, TokenType::RightCurly, '}');
                match closed.result {
                    Ok(_) => done(
                        ExprView {
                            line: closed.cursor.line,
                            expr_type: ExprTypeView::Dictionary { elements },
                        },
                        closed.cursor,
                    ),
                    Err(error) => failed(error, closed.cursor),
                }
            },
            Err(error) => failed(error, list.cursor),
        }
    } else if kind_at(ts, c) == TokenType::Identifier {
        done(
            ExprView {
                line: consume(ts, c).line,
                expr_type: ExprTypeView::Variable { name: ts[c.index].lexeme },
            },
            consume(ts, c),
        )
    } else {
        failed(ErrorType::ExpectedExpression { line: c.line }, c)
    }
}

/// Whether `kind` is a keyword that starts a statement other than `break`.
pub open spec fn is_statement_keyword(kind: TokenType) -> bool {
    kind == TokenType::For || kind == TokenType::Func || kind == TokenType::If || kind
        == TokenType::Print || kind == TokenType::Return || kind == TokenType::Var || kind
        == TokenType::While
}

/// Whether reading starts again at a token of kind `kind` after an error: at the
/// end of the text and at the keywords that start a statement.
pub open spec fn starts_afresh(kind: TokenType) -> bool {
    kind == TokenType::Eof || is_statement_keyword(kind)
}

/// A statement: `break`, one that its keyword names, or else an expression. A
/// statement that is an expression carries the line of the token read before it.
#[verifier::opaque]
pub open spec fn statement(ts: Seq<TokenView>, c: Cursor) -> Parsed<StmtView>
    decreases remaining(ts, c), 0int,
{
    if kind_at(ts, c) == TokenType::Break {
        done(StmtView { line: consume(ts, c).line, stmt_type: StmtTypeView::Break }, consume(ts, c))
    } else if kind_at(ts, c) == TokenType::For {
        for_(ts, consume(ts, c))
    } else if kind_at(ts, c) == TokenType::Func {
        function(ts, consume(ts, c))
    } else if kind_at(ts, c) == TokenType::If {
        if_(ts, consume(ts, c))
    } else if kind_at(ts, c) == TokenType::Print {
        print(ts, consume(ts, c))
    } else if kind_at(ts, c) == TokenType::Return {
        return_(ts, consume(ts, c))
    } else if kind_at(ts, c) == TokenType::Var {
        var(ts, consume(ts, c))
    } else if kind_at(ts, c) == TokenType::While {
        while_(ts, consume(ts, c))
    } else {
        let read = expression(ts, c);
        match read.result {
            Ok(expression) => done(
                StmtView { line: c.line, stmt_type: StmtTypeView::Expression { expression } },
                read.cursor,
            ),
            Err(error) => failed(error, read.cursor),
        }
    }
}

/// Statements in curly brackets.
#[verifier::opaque]
pub open spec fn block(ts: Seq<TokenView>, c: Cursor) -> Parsed<StmtView>
    decreases remaining(ts, c), 2int,
{
    let opened = expect(ts, c, TokenType::LeftCurly, '{');
    match opened.result {
        Ok(_) => {
            let inner = block_rest(ts, opened.cursor, Seq::empty());
            match inner.result {
                Ok(body) => {
                    let closed = expect(ts, inner.cursor, TokenType::RightCurly, '}');
                    match closed.result {
                        Ok(_) => done(
                            StmtView {
                                line: closed.cursor.line,
                                stmt_type: StmtTypeView::Block { body },
                            },
                            closed.cursor,
                        ),
                        Err(error) => failed(error, closed.cursor),
                    }
                },
                Err(error) => failed(error, inner.cursor),
            }
        },
        Err(error) => failed(error, opened.cursor),
    }
}

/// The statements of a block after those in `read`, up to a closing curly bracket
/// or the end of the tokens. A statement that was read took at least one token.
#[verifier::opaque]
pub open spec fn block_rest(ts: Seq<TokenView>, c: Cursor, read: Seq<StmtView>) -> Parsed<
    Seq<StmtView>,
>
    decreases remaining(ts, c), 1int,
{
    if (kind_at(ts, c) == TokenType::RightCurly || kind_at(ts, c) == TokenType::Eof) {
        done(read, c)
    } else {
        let one = statement(ts, c);
        match one.result {
            Ok(item) => if remaining(ts, one.cursor) < remaining(ts, c) {
                block_rest(ts, one.cursor, read.push(item))
            } else {
                done(read.push(item), one.cursor)
            },
            Err(error) => failed(error, one.cursor),
        }
    }
}

/// What a `for` loop is written as: a block of the initialiser, where there is
/// one, and a `while` loop on the condition, whose body is a block of the loop's
/// body and then, where there is one, its increment. Without an initialiser the
/// outer block holds the `while` loop alone. All these statements carry the line
/// on which the loop ends.
pub open spec fn desugar_for(
    initialiser: Option<StmtView>,
    condition: ExprView,
    increment: Option<StmtView>,
    body: StmtView,
    line: usize,
) -> StmtView {
    let while_body = StmtView {
        line,
        stmt_type: StmtTypeView::Block {
            body: match increment {
                Some(step) => seq![body, step],
                None => seq![body],
            },
        },
    };
    let while_loop = StmtView {
        line,
        stmt_type: StmtTypeView::While { condition, body: Box::new(while_body) },
    };
    StmtView {
        line,
        stmt_type: StmtTypeView::Block {
            body: match initialiser {
                Some(first) => seq![first, while_loop],
                None => seq![while_loop],
            },
        },
    }
}

/// A `for` loop after its keyword: `(`, an initialising statement or nothing, `;`,
/// and the rest.
#[verifier::opaque]
pub open spec fn for_(ts: Seq<TokenView>, c: Cursor) -> Parsed<StmtView>
    decreases remaining(ts, c), 3int,
{
    let opened = expect(ts, c, TokenType::LeftParen, '(');
    match opened.result {
        Ok(_) => if kind_at(ts, opened.cursor) == TokenType::Semicolon {
            for_condition(ts, opened.cursor, None)
        } else {
            let first = statement(ts, opened.cursor).after(opened.cursor);
            match first.result {
                Ok(initialiser) => for_condition(ts, first.cursor, Some(initialiser)),
                Err(error) => failed(error, first.cursor),
            }
        },
        Err(error) => failed(error, opened.cursor),
    }
}

/// A `for` loop from the `;` after its initialiser on: a condition or nothing,
/// which stands for `true`, then `;`, and the rest.
#[verifier::opaque]
pub open spec fn for_condition(ts: Seq<TokenView>, c: Cursor, initialiser: Option<StmtView>)
    -> Parsed<StmtView>
    decreases remaining(ts, c), 3int,
{
    if kind_at(ts, c) == TokenType::Semicolon {
        let start = consume(ts, c);
        if kind_at(ts, start) == TokenType::Semicolon {
            for_increment(
                ts,
                start,
                initialiser,
                literal(LiteralView::Bool(true), start.line),
            )
        } else {
            let read = expression(ts, start).after(start);
            match read.result {
                Ok(condition) => for_increment(ts, read.cursor, initialiser, condition),
                Err(error) => failed(error, read.cursor),
            }
        }
    } else {
        failed(ErrorType::ExpectedSemicolonAfterInit { line: c.line }, c)
    }
}

/// A `for` loop from the `;` after its condition on: an increment statement or
/// nothing, then `)`, and the body.
#[verifier::opaque]
pub open spec fn for_increment(
    ts: Seq<TokenView>,
    c: Cursor,
    initialiser: Option<StmtView>,
    condition: ExprView,
) -> Parsed<StmtView>
    decreases remaining(ts, c), 3int,
{
    if kind_at(ts, c) == TokenType::Semicolon {
        let start = consume(ts, c);
        if kind_at(ts, start) == TokenType::RightParen {
            for_body(ts, start, initialiser, condition, None)
        } else {
            let read = statement(ts, start).after(start);
            match read.result {
                Ok(increment) => for_body(ts, read.cursor, initialiser, condition, Some(increment)),
                Err(error) => failed(error, read.cursor),
            }
        }
    } else {
        failed(ErrorType::ExpectedSemicolonAfterCondition { line: c.line }, c)
    }
}

/// A `for` loop from the `)` after its increment on: the body, a block.
#[verifier::opaque]
pub open spec fn for_body(
    ts: Seq<TokenView>,
    c: Cursor,
    initialiser: Option<StmtView>,
    condition: ExprView,
    increment: Option<StmtView>,
) -> Parsed<StmtView>
    decreases remaining(ts, c), 3int,
{
    if kind_at(ts, c) == TokenType::RightParen {
        let read = block(ts, consume(ts, c));
        match read.result {
            Ok(body) => done(
                desugar_for(initialiser, condition, increment, body, read.cursor.line),
                read.cursor,
            ),
            Err(error) => failed(error, read.cursor),
        }
    } else {
        failed(ErrorType::ExpectedParenAfterIncrement { line: c.line }, c)
    }
}

/// One or more parameter names with commas between them, after those in `read`.
#[verifier::opaque]
pub open spec fn parameters(ts: Seq<TokenView>, c: Cursor, read: Seq<Seq<char>>) -> Parsed<
    Seq<Seq<char>>,
>
    decreases remaining(ts, c),
{
    if kind_at(ts, c) == TokenType::Identifier {
        let named = consume(ts, c);
        if kind_at(ts, named) == TokenType::Comma {
            parameters(ts, consume(ts, named), read.push(ts[c.index].lexeme))
        } else {
            done(read.push(ts[c.index].lexeme), named)
        }
    } else {
        failed(ErrorType::ExpectedParameterName { line: c.line }, c)
    }
}

/// The parameter list of a function after its `(`: nothing before a `)`, or else
/// one or more names.
pub open spec fn parameter_list(ts: Seq<TokenView>, c: Cursor) -> Parsed<Seq<Seq<char>>> {
    if kind_at(ts, c) == TokenType::RightParen {
        done(Seq::empty(), c)
    } else {
        parameters(ts, c, Seq::empty())
    }
}

/// A function declaration after its keyword: a name that is no keyword, the
/// parameters in round brackets, and the body, a block.
#[verifier::opaque]
pub open spec fn function(ts: Seq<TokenView>, c: Cursor) -> Parsed<StmtView>
    decreases remaining(ts, c), 3int,
{
    if kind_at(ts, c) == TokenType::Identifier {
        let opened = expect(ts, consume(ts, c), TokenType::LeftParen, '(');
        match opened.result {
            Ok(_) => {
                let list = parameter_list(ts, opened.cursor).after(opened.cursor);
                match list.result {
                    Ok(parameters) => {
                        let closed = expect(ts, list.cursor, TokenType::RightParen, ')');
                        match closed.result {
                            Ok(_) => {
                                let read = block(ts, closed.cursor);
                                match read.result {
                                    Ok(body) => done(
                                        StmtView {
                                            line: read.cursor.line,
                                            stmt_type: StmtTypeView::Function {
                                                name: ts[c.index].lexeme,
                                                parameters,
                                                body: Box::new(body),
                                            },
                                        },
                                        read.cursor,
                                    ),
                                    Err(error) => failed(error, read.cursor),
                                }
                            },
                            Err(error) => failed(error, closed.cursor),
                        }
                    },
                    Err(error) => failed(error, list.cursor),
                }
            },
            Err(error) => failed(error, opened.cursor),
        }
    } else {
        failed(ErrorType::ExpectedFunctionName { line: c.line }, c)
    }
}

/// A condition in round brackets, as `if` and `while` have it.
pub open spec fn condition(ts: Seq<TokenView>, c: Cursor) -> Parsed<ExprView> {
    let opened = expect(ts, c, TokenType::LeftParen, '(');
    match opened.result {
        Ok(_) => {
            let read = expression(ts, opened.cursor).after(opened.cursor);
            match read.result {
                Ok(condition) => {
                    let closed = expect(ts, read.cursor, TokenType::RightParen, ')');
                    match closed.result {
                        Ok(_) => done(condition, closed.cursor),
                        Err(error) => failed(error, closed.cursor),
                    }
                },
                Err(_) => read,
            }
        },
        Err(error) => failed(error, opened.cursor),
    }
}

/// An `if` statement after its keyword: a condition in round brackets, a block,
/// and after `else` what [`else_body`] reads.
#[verifier::opaque]
pub open spec fn if_(ts: Seq<TokenView>, c: Cursor) -> Parsed<StmtView>
    decreases remaining(ts, c), 3int,
{
    let tested = condition(ts, c).after(c);
    match tested.result {
        Ok(condition) => {
            let first = block(ts, tested.cursor).after(tested.cursor);
            match first.result {
                Ok(then_body) => if kind_at(ts, first.cursor) == TokenType::Else {
                    let second = else_body(ts, consume(ts, first.cursor));
                    match second.result {
                        Ok(other) => done(
                            StmtView {
                                line: second.cursor.line,
                                stmt_type: StmtTypeView::If {
                                    condition,
                                    then_body: Box::new(then_body),
                                    else_body: Some(Box::new(other)),
                                },
                            },
                            second.cursor,
                        ),
                        Err(error) => failed(error, second.cursor),
                    }
                } else {
                    done(
                        StmtView {
                            line: first.cursor.line,
                            stmt_type: StmtTypeView::If {
                                condition,
                                then_body: Box::new(then_body),
                                else_body: None,
                            },
                        },
                        first.cursor,
                    )
                },
                Err(error) => failed(error, first.cursor),
            }
        },
        Err(error) => failed(error, tested.cursor),
    }
}

/// What follows `else`: another `if` statement, or a block.
#[verifier::opaque]
pub open spec fn else_body(ts: Seq<TokenView>, c: Cursor) -> Parsed<StmtView>
    decreases remaining(ts, c), 3int,
{
    if kind_at(ts, c) == TokenType::If {
        if_(ts, consume(ts, c))
    } else {
        block(ts, c)
    }
}

/// A `print` statement after its keyword: an expression. The statement carries the
/// line of the keyword.
pub open spec fn print(ts: Seq<TokenView>, c: Cursor) -> Parsed<StmtView> {
    let read = expression(ts, c);
    match read.result {
        Ok(expression) => done(
            StmtView { line: c.line, stmt_type: StmtTypeView::Print { expression } },
            read.cursor,
        ),
        Err(error) => failed(error, read.cursor),
    }
}

/// A `return` statement after its keyword: an expression, or nothing. Where an
/// expression was expected and none was found, the statement returns nothing, and
/// the tokens read in the attempt stay read.
pub open spec fn return_(ts: Seq<TokenView>, c: Cursor) -> Parsed<StmtView> {
    let read = expression(ts, c);
    match read.result {
        Ok(expression) => done(
            StmtView {
                line: read.cursor.line,
                stmt_type: StmtTypeView::Return { expression: Some(expression) },
            },
            read.cursor,
        ),
        Err(ErrorType::ExpectedExpression { .. }) => done(
            StmtView {
                line: read.cursor.line,
                stmt_type: StmtTypeView::Return { expression: None },
            },
            read.cursor,
        ),
        Err(error) => failed(error, read.cursor),
    }
}

/// A variable declaration after its keyword: a name that is no keyword, `=`, and
/// an expression.
pub open spec fn var(ts: Seq<TokenView>, c: Cursor) -> Parsed<StmtView> {
    if kind_at(ts, c) == TokenType::Identifier {
        let assigned = expect(ts, consume(ts, c), TokenType::Equal, '=');
        match assigned.result {
            Ok(_) => {
                let read = expression(ts, assigned.cursor);
                match read.result {
                    Ok(value) => done(
                        StmtView {
                            line: read.cursor.line,
                            stmt_type: StmtTypeView::VarDecl { name: ts[c.index].lexeme, value },
                        },
                        read.cursor,
                    ),
                    Err(error) => failed(error, read.cursor),
                }
            },
            Err(error) => failed(error, assigned.cursor),
        }
    } else {
        failed(ErrorType::ExpectedVariableName { line: c.line }, c)
    }
}

/// A `while` loop after its keyword: a condition in round brackets and a block.
#[verifier::opaque]
pub open spec fn while_(ts: Seq<TokenView>, c: Cursor) -> Parsed<StmtView>
    decreases remaining(ts, c), 3int,
{
    let tested = condition(ts, c).after(c);
    match tested.result {
        Ok(condition) => {
            let read = block(ts, tested.cursor);
            match read.result {
                Ok(body) => done(
                    StmtView {
                        line: read.cursor.line,
                        stmt_type: StmtTypeView::While { condition, body: Box::new(body) },
                    },
                    read.cursor,
                ),
                Err(error) => failed(error, read.cursor),
            }
        },
        Err(error) => failed(error, tested.cursor),
    }
}

/// Where reading starts again after an error: at the first token from the cursor
/// on at which [`starts_afresh`] holds. The cursor takes the line of the token
/// it stops at.
#[verifier::opaque]
pub open spec fn sync(ts: Seq<TokenView>, c: Cursor) -> Cursor
    decreases remaining(ts, c),
{
    if starts_afresh(kind_at(ts, c)) || !(0 <= c.index && c.index + 1 < ts.len()) {
        c
    } else {
        sync(ts, Cursor { index: c.index + 1, line: ts[c.index + 1].line })
    }
}

/// The statements and the errors of a program, each in the order of the text, and
/// the cursor reached.
pub struct Program {
    pub statements: Seq<StmtView>,
    pub errors: Seq<ErrorType>,
    pub cursor: Cursor,
}

/// Reads statements up to the end-of-text token, after the statements in
/// `statements` and the errors in `errors`. A statement that cannot be read gives
/// one error, and reading starts again where [`sync`] says. Each round takes at
/// least one token.
#[verifier::opaque]
pub open spec fn program(
    ts: Seq<TokenView>,
    c: Cursor,
    statements: Seq<StmtView>,
    errors: Seq<ErrorType>,
) -> Program
    decreases remaining(ts, c),
{
    if kind_at(ts, c) == TokenType::Eof {
        Program { statements, errors, cursor: c }
    } else {
        let one = statement(ts, c);
        match one.result {
            Ok(item) => if remaining(ts, one.cursor) < remaining(ts, c) {
                program(ts, one.cursor, statements.push(item), errors)
            } else {
                Program { statements: statements.push(item), errors, cursor: one.cursor }
            },
            Err(error) => {
                let next = sync(ts, one.cursor);
                if remaining(ts, next) < remaining(ts, c) {
                    program(ts, next, statements, errors.push(error))
                } else {
                    Program { statements, errors: errors.push(error), cursor: next }
                }
            },
        }
    }
}

// The definitions above are opaque, so that a proof sees of them only the steps
// it asks for.

/// [`expression`], taken one step.
pub proof fn unfold_expression(ts: Seq<TokenView>, c: Cursor)
    ensures
        expression(ts, c) == ({
            assignment(ts, c)
        }),
{
    reveal(expression);
    reveal(assignment);
}

/// [`assignment`], taken one step.
pub proof fn unfold_assignment(ts: Seq<TokenView>, c: Cursor)
    ensures
        assignment(ts, c) == ({
            let first = binary(ts, c, 0).after(c);
            match first.result {
                Ok(target) => if kind_at(ts, first.cursor) == TokenType::Equal {
                    let rest = assignment(ts, consume(ts, first.cursor));
                    match rest.result {
                        Ok(value) => done(
                            ExprView {
                                line: rest.cursor.line,
                                expr_type: ExprTypeView::Assignment {
                                    target: Box::new(target),
                                    value: Box::new(value),
                                },
                            },
                            rest.cursor,
                        ),
                        Err(_) => rest,
                    }
                } else {
                    first
                },
                Err(_) => first,
            }
        }),
{
    reveal(assignment);
    reveal(binary);
}

/// [`binary`], taken one step.
pub proof fn unfold_binary(ts: Seq<TokenView>, c: Cursor, level: nat)
    ensures
        binary(ts, c, level) == ({
            let first = (if level >= 5 {
                unary(ts, c)
            } else {
                binary(ts, c, level + 1)
            }).after(c);
            match first.result {
                Ok(left) => binary_rest(ts, first.cursor, level, left),
                Err(_) => first,
            }
        }),
{
    reveal(binary);
    reveal(binary_rest);
    reveal(unary);
}

/// [`binary_rest`], taken one step.
pub proof fn unfold_binary_rest(ts: Seq<TokenView>, c: Cursor, level: nat, left: ExprView)
    ensures
        binary_rest(ts, c, level, left) == ({
            if is_operator(level, kind_at(ts, c)) {
                let operator = ts[c.index];
                let start = consume(ts, c);
                let second = (if level >= 5 {
                    unary(ts, start)
                } else {
                    binary(ts, start, level + 1)
                }).after(start);
                match second.result {
                    Ok(right) => binary_rest(
                        ts,
                        second.cursor,
                        level,
                        ExprView {
                            line: second.cursor.line,
                            expr_type: ExprTypeView::Binary {
                                left: Box::new(left),
                                operator,
                                right: Box::new(right),
                            },
                        },
                    ),
                    Err(_) => second,
                }
            } else {
                done(left, c)
            }
        }),
{
    reveal(binary_rest);
    reveal(binary);
    reveal(unary);
}

/// [`unary`], taken one step.
pub proof fn unfold_unary(ts: Seq<TokenView>, c: Cursor)
    ensures
        unary(ts, c) == ({
            if (kind_at(ts, c) == TokenType::Bang || kind_at(ts, c) == TokenType::Minus) {
                let inner = unary(ts, consume(ts, c));
                match inner.result {
                    Ok(right) => done(
                        ExprView {
                            line: inner.cursor.line,
                            expr_type: ExprTypeView::Unary { operator: ts[c.index], right: Box::new(right) },
                        },
                        inner.cursor,
                    ),
                    Err(_) => inner,
                }
            } else {
                element(ts, c)
            }
        }),
{
    reveal(unary);
    reveal(element);
}

/// [`element`], taken one step.
pub proof fn unfold_element(ts: Seq<TokenView>, c: Cursor)
    ensures
        element(ts, c) == ({
            let first = call(ts, c).after(c);
            match first.result {
                Ok(array) => element_rest(ts, first.cursor, array),
                Err(_) => first,
            }
        }),
{
    reveal(element);
    reveal(element_rest);
    reveal(call);
}

/// [`element_rest`], taken one step.
pub proof fn unfold_element_rest(ts: Seq<TokenView>, c: Cursor, array: ExprView)
    ensures
        element_rest(ts, c, array) == ({
            if kind_at(ts, c) == TokenType::LeftSquare {
                let start = consume(ts, c);
                let inner = expression(ts, start).after(start);
                match inner.result {
                    Ok(index) => {
                        let closed = expect(ts, inner.cursor, TokenType::RightSquare, ']');
                        match closed.result {
                            Ok(_) => element_rest(
                                ts,
                                closed.cursor,
                                ExprView {
                                    line: inner.cursor.line,
                                    expr_type: ExprTypeView::Element {
                                        array: Box::new(array),
                                        index: Box::new(index),
                                    },
                                },
                            ),
                            Err(error) => failed(error, closed.cursor),
                        }
                    },
                    Err(_) => inner,
                }
            } else {
                done(array, c)
            }
        }),
{
    reveal(element_rest);
    reveal(expression);
}

/// [`call`], taken one step.
pub proof fn unfold_call(ts: Seq<TokenView>, c: Cursor)
    ensures
        call(ts, c) == ({
            let first = primary(ts, c).after(c);
            match first.result {
                Ok(callee) => call_rest(ts, first.cursor, callee),
                Err(_) => first,
            }
        }),
{
    reveal(call);
    reveal(call_rest);
    reveal(primary);
}

/// [`call_rest`], taken one step.
pub proof fn unfold_call_rest(ts: Seq<TokenView>, c: Cursor, callee: ExprView)
    ensures
        call_rest(ts, c, callee) == ({
            if kind_at(ts, c) == TokenType::LeftParen {
                let start = consume(ts, c);
                let list = arguments(ts, start, TokenType::RightParen).after(start);
                match list.result {
                    Ok(arguments) => {
                        let closed = expect(ts, list.cursor, TokenType::RightParen, ')');
                        match closed.result {
                            Ok(_) => call_rest(
                                ts,
                                closed.cursor,
                                ExprView {
                                    line: closed.cursor.line,
                                    expr_type: ExprTypeView::Call { callee: Box::new(callee), arguments },
                                },
                            ),
                            Err(error) => failed(error, closed.cursor),
                        }
                    },
                    Err(error) => failed(error, list.cursor),
                }
            } else {
                done(callee, c)
            }
        }),
{
    reveal(call_rest);
    reveal(arguments);
}

/// [`arguments`], taken one step.
pub proof fn unfold_arguments(ts: Seq<TokenView>, c: Cursor, closing: TokenType)
    ensures
        arguments(ts, c, closing) == ({
            if kind_at(ts, c) == closing {
                done(Seq::empty(), c)
            } else {
                items(ts, c, Seq::empty())
            }
        }),
{
    reveal(arguments);
    reveal(items);
}

/// [`items`], taken one step.
pub proof fn unfold_items(ts: Seq<TokenView>, c: Cursor, read: Seq<ExprView>)
    ensures
        items(ts, c, read) == ({
            let one = expression(ts, c).after(c);
            match one.result {
                Ok(item) => if kind_at(ts, one.cursor) == TokenType::Comma {
                    items(ts, consume(ts, one.cursor), read.push(item))
                } else {
                    done(read.push(item), one.cursor)
                },
                Err(error) => failed(error, one.cursor),
            }
        }),
{
    reveal(items);
    reveal(expression);
}

/// [`pairs`], taken one step.
pub proof fn unfold_pairs(ts: Seq<TokenView>, c: Cursor, read: Seq<KeyValue<ExprView>>)
    ensures
        pairs(ts, c, read) == ({
            let first = expression(ts, c).after(c);
            match first.result {
                Ok(key) => if kind_at(ts, first.cursor) == TokenType::Colon {
                    let start = consume(ts, first.cursor);
                    let second = expression(ts, start).after(start);
                    match second.result {
                        Ok(value) => if kind_at(ts, second.cursor) == TokenType::Comma {
                            pairs(ts, consume(ts, second.cursor), read.push(KeyValue { key, value }))
                        } else {
                            done(read.push(KeyValue { key, value }), second.cursor)
                        },
                        Err(error) => failed(error, second.cursor),
                    }
                } else {
                    failed(ErrorType::ExpectedColonAfterKey { line: first.cursor.line }, first.cursor)
                },
                Err(error) => failed(error, first.cursor),
            }
        }),
{
    reveal(pairs);
    reveal(expression);
}

/// [`primary`], taken one step.
pub proof fn unfold_primary(ts: Seq<TokenView>, c: Cursor)
    ensures
        primary(ts, c) == ({
            if kind_at(ts, c) == TokenType::True {
                done(literal(LiteralView::Bool(true), consume(ts, c).line), consume(ts, c))
            } else if kind_at(ts, c) == TokenType::False {
                done(literal(LiteralView::Bool(false), consume(ts, c).line), consume(ts, c))
            } else if kind_at(ts, c) == TokenType::Null {
                done(literal(LiteralView::Null, consume(ts, c).line), consume(ts, c))
            } else if (kind_at(ts, c) == TokenType::String_ || kind_at(ts, c) == TokenType::Number) {
                done(literal(ts[c.index].literal, consume(ts, c).line), consume(ts, c))
            } else if kind_at(ts, c) == TokenType::LeftParen {
                let inner = expression(ts, consume(ts, c));
                match inner.result {
                    Ok(expression) => {
                        let closed = expect(ts, inner.cursor, TokenType::RightParen, ')');
                        match closed.result {
                            Ok(_) => done(
                                ExprView {
                                    line: closed.cursor.line,
                                    expr_type: ExprTypeView::Grouping { expression: Box::new(expression) },
                                },
                                closed.cursor,
                            ),
                            Err(error) => failed(error, closed.cursor),
                        }
                    },
                    Err(_) => inner,
                }
            } else if kind_at(ts, c) == TokenType::LeftSquare {
                let list = arguments(ts, consume(ts, c), TokenType::RightSquare);
                match list.result {
                    Ok(elements) => {
                        let closed = expect(ts, list.cursor, TokenType::RightSquare, ']');
                        match closed.result {
                            Ok(_) => done(
                                ExprView {
                                    line: closed.cursor.line,
                                    expr_type: ExprTypeView::Array { elements },
                                },
                                closed.cursor,
                            ),
                            Err(error) => failed(error, closed.cursor),
                        }
                    },
                    Err(error) => failed(error, list.cursor),
                }
            } else if kind_at(ts, c) == TokenType::LeftCurly {
                let start = consume(ts, c);
                let list = if kind_at(ts, start) == TokenType::RightCurly {
                    done(Seq::empty(), start)
                } else {
                    pairs(ts, start, Seq::empty())
                };
                match list.result {
                    Ok(elements) => {
                        let closed = expect(ts, list.cursor, TokenType::RightCurly, '}');
                        match closed.result {
                            Ok(_) => done(
                                ExprView {
                                    line: closed.cursor.line,
                                    expr_type: ExprTypeView::Dictionary { elements },
                                },
                                closed.cursor,
                            ),
                            Err(error) => failed(error, closed.cursor),
                        }
                    },
                    Err(error) => failed(error, list.cursor),
                }
            } else if kind_at(ts, c) == TokenType::Identifier {
                done(
                    ExprView {
                        line: consume(ts, c).line,
                        expr_type: ExprTypeView::Variable { name: ts[c.index].lexeme },
                    },
                    consume(ts, c),
                )
            } else {
                failed(ErrorType::ExpectedExpression { line: c.line }, c)
            }
        }),
{
    reveal(primary);
    reveal(expression);
    reveal(arguments);
    reveal(pairs);
}

/// [`statement`], taken one step.
pub proof fn unfold_statement(ts: Seq<TokenView>, c: Cursor)
    ensures
        statement(ts, c) == ({
            if kind_at(ts, c) == TokenType::Break {
                done(StmtView { line: consume(ts, c).line, stmt_type: StmtTypeView::Break }, consume(ts, c))
            } else if kind_at(ts, c) == TokenType::For {
                for_(ts, consume(ts, c))
            } else if kind_at(ts, c) == TokenType::Func {
                function(ts, consume(ts, c))
            } else if kind_at(ts, c) == TokenType::If {
                if_(ts, consume(ts, c))
            } else if kind_at(ts, c) == TokenType::Print {
                print(ts, consume(ts, c))
            } else if kind_at(ts, c) == TokenType::Return {
                return_(ts, consume(ts, c))
            } else if kind_at(ts, c) == TokenType::Var {
                var(ts, consume(ts, c))
            } else if kind_at(ts, c) == TokenType::While {
                while_(ts, consume(ts, c))
            } else {
                let read = expression(ts, c);
                match read.result {
                    Ok(expression) => done(
                        StmtView {
                            line: c.line,
                            stmt_type: StmtTypeView::Expression { expression },
                        },
                        read.cursor,
                    ),
                    Err(error) => failed(error, read.cursor),
                }
            }
        }),
{
    reveal(statement);
    reveal(expression);
    reveal(for_);
    reveal(function);
    reveal(if_);
    reveal(while_);
}

/// [`block`], taken one step.
pub proof fn unfold_block(ts: Seq<TokenView>, c: Cursor)
    ensures
        block(ts, c) == ({
            let opened = expect(ts, c, TokenType::LeftCurly, '{');
            match opened.result {
                Ok(_) => {
                    let inner = block_rest(ts, opened.cursor, Seq::empty());
                    match inner.result {
                        Ok(body) => {
                            let closed = expect(ts, inner.cursor, TokenType::RightCurly, '}');
                            match closed.result {
                                Ok(_) => done(
                                    StmtView {
                                        line: closed.cursor.line,
                                        stmt_type: StmtTypeView::Block { body },
                                    },
                                    closed.cursor,
                                ),
                                Err(error) => failed(error, closed.cursor),
                            }
                        },
                        Err(error) => failed(error, inner.cursor),
                    }
                },
                Err(error) => failed(error, opened.cursor),
            }
        }),
{
    reveal(block);
    reveal(block_rest);
}

/// [`block_rest`], taken one step.
pub proof fn unfold_block_rest(ts: Seq<TokenView>, c: Cursor, read: Seq<StmtView>)
    ensures
        block_rest(ts, c, read) == ({
            if (kind_at(ts, c) == TokenType::RightCurly || kind_at(ts, c) == TokenType::Eof) {
                done(read, c)
            } else {
                let one = statement(ts, c);
                match one.result {
                    Ok(item) => if remaining(ts, one.cursor) < remaining(ts, c) {
                        block_rest(ts, one.cursor, read.push(item))
                    } else {
                        done(read.push(item), one.cursor)
                    },
                    Err(error) => failed(error, one.cursor),
                }
            }
        }),
{
    reveal(block_rest);
    reveal(statement);
}

/// [`for_`], taken one step.
pub proof fn unfold_for_(ts: Seq<TokenView>, c: Cursor)
    ensures
        for_(ts, c) == ({
            let opened = expect(ts, c, TokenType::LeftParen, '(');
            match opened.result {
                Ok(_) => if kind_at(ts, opened.cursor) == TokenType::Semicolon {
                    for_condition(ts, opened.cursor, None)
                } else {
                    let first = statement(ts, opened.cursor).after(opened.cursor);
                    match first.result {
                        Ok(initialiser) => for_condition(ts, first.cursor, Some(initialiser)),
                        Err(error) => failed(error, first.cursor),
                    }
                },
                Err(error) => failed(error, opened.cursor),
            }
        }),
{
    reveal(for_);
    reveal(statement);
    reveal(for_condition);
}

/// [`for_condition`], taken one step.
pub proof fn unfold_for_condition(ts: Seq<TokenView>, c: Cursor, initialiser: Option<StmtView>)
    ensures
        for_condition(ts, c, initialiser) == ({
            if kind_at(ts, c) == TokenType::Semicolon {
                let start = consume(ts, c);
                if kind_at(ts, start) == TokenType::Semicolon {
                    for_increment(
                        ts,
                        start,
                        initialiser,
                        literal(LiteralView::Bool(true), start.line),
                    )
                } else {
                    let read = expression(ts, start).after(start);
                    match read.result {
                        Ok(condition) => for_increment(ts, read.cursor, initialiser, condition),
                        Err(error) => failed(error, read.cursor),
                    }
                }
            } else {
                failed(ErrorType::ExpectedSemicolonAfterInit { line: c.line }, c)
            }
        }),
{
    reveal(for_condition);
    reveal(expression);
    reveal(for_increment);
}

/// [`for_increment`], taken one step.
pub proof fn unfold_for_increment(
    ts: Seq<TokenView>,
    c: Cursor,
    initialiser: Option<StmtView>,
    condition: ExprView,
)
    ensures
        for_increment(ts, c, initialiser, condition) == ({
            if kind_at(ts, c) == TokenType::Semicolon {
                let start = consume(ts, c);
                if kind_at(ts, start) == TokenType::RightParen {
                    for_body(ts, start, initialiser, condition, None)
                } else {
                    let read = statement(ts, start).after(start);
                    match read.result {
                        Ok(increment) => for_body(ts, read.cursor, initialiser, condition, Some(increment)),
                        Err(error) => failed(error, read.cursor),
                    }
                }
            } else {
                failed(ErrorType::ExpectedSemicolonAfterCondition { line: c.line }, c)
            }
        }),
{
    reveal(for_increment);
    reveal(statement);
    reveal(for_body);
}

/// [`for_body`], taken one step.
pub proof fn unfold_for_body(
    ts: Seq<TokenView>,
    c: Cursor,
    initialiser: Option<StmtView>,
    condition: ExprView,
    increment: Option<StmtView>,
)
    ensures
        for_body(ts, c, initialiser, condition, increment) == ({
            if kind_at(ts, c) == TokenType::RightParen {
                let read = block(ts, consume(ts, c));
                match read.result {
                    Ok(body) => done(
                        desugar_for(initialiser, condition, increment, body, read.cursor.line),
                        read.cursor,
                    ),
                    Err(error) => failed(error, read.cursor),
                }
            } else {
                failed(ErrorType::ExpectedParenAfterIncrement { line: c.line }, c)
            }
        }),
{
    reveal(for_body);
    reveal(block);
}

/// [`parameters`], taken one step.
pub proof fn unfold_parameters(ts: Seq<TokenView>, c: Cursor, read: Seq<Seq<char>>)
    ensures
        parameters(ts, c, read) == ({
            if kind_at(ts, c) == TokenType::Identifier {
                let named = consume(ts, c);
                if kind_at(ts, named) == TokenType::Comma {
                    parameters(ts, consume(ts, named), read.push(ts[c.index].lexeme))
                } else {
                    done(read.push(ts[c.index].lexeme), named)
                }
            } else {
                failed(ErrorType::ExpectedParameterName { line: c.line }, c)
            }
        }),
{
    reveal(parameters);
}

/// [`function`], taken one step.
pub proof fn unfold_function(ts: Seq<TokenView>, c: Cursor)
    ensures
        function(ts, c) == ({
            if kind_at(ts, c) == TokenType::Identifier {
                let opened = expect(ts, consume(ts, c), TokenType::LeftParen, '(');
                match opened.result {
                    Ok(_) => {
                        let list = parameter_list(ts, opened.cursor).after(opened.cursor);
                        match list.result {
                            Ok(parameters) => {
                                let closed = expect(ts, list.cursor, TokenType::RightParen, ')');
                                match closed.result {
                                    Ok(_) => {
                                        let read = block(ts, closed.cursor);
                                        match read.result {
                                            Ok(body) => done(
                                                StmtView {
                                                    line: read.cursor.line,
                                                    stmt_type: StmtTypeView::Function {
                                                        name: ts[c.index].lexeme,
                                                        parameters,
                                                        body: Box::new(body),
                                                    },
                                                },
                                                read.cursor,
                                            ),
                                            Err(error) => failed(error, read.cursor),
                                        }
                                    },
                                    Err(error) => failed(error, closed.cursor),
                                }
                            },
                            Err(error) => failed(error, list.cursor),
                        }
                    },
                    Err(error) => failed(error, opened.cursor),
                }
            } else {
                failed(ErrorType::ExpectedFunctionName { line: c.line }, c)
            }
        }),
{
    reveal(function);
    reveal(block);
}

/// [`if_`], taken one step.
pub proof fn unfold_if_(ts: Seq<TokenView>, c: Cursor)
    ensures
        if_(ts, c) == ({
            let tested = condition(ts, c).after(c);
            match tested.result {
                Ok(condition) => {
                    let first = block(ts, tested.cursor).after(tested.cursor);
                    match first.result {
                        Ok(then_body) => if kind_at(ts, first.cursor) == TokenType::Else {
                            let second = else_body(ts, consume(ts, first.cursor));
                            match second.result {
                                Ok(other) => done(
                                    StmtView {
                                        line: second.cursor.line,
                                        stmt_type: StmtTypeView::If {
                                            condition,
                                            then_body: Box::new(then_body),
                                            else_body: Some(Box::new(other)),
                                        },
                                    },
                                    second.cursor,
                                ),
                                Err(error) => failed(error, second.cursor),
                            }
                        } else {
                            done(
                                StmtView {
                                    line: first.cursor.line,
                                    stmt_type: StmtTypeView::If {
                                        condition,
                                        then_body: Box::new(then_body),
                                        else_body: None,
                                    },
                                },
                                first.cursor,
                            )
                        },
                        Err(error) => failed(error, first.cursor),
                    }
                },
                Err(error) => failed(error, tested.cursor),
            }
        }),
{
    reveal(if_);
    reveal(block);
    reveal(else_body);
}

/// [`else_body`], taken one step.
pub proof fn unfold_else_body(ts: Seq<TokenView>, c: Cursor)
    ensures
        else_body(ts, c) == ({
            if kind_at(ts, c) == TokenType::If {
                if_(ts, consume(ts, c))
            } else {
                block(ts, c)
            }
        }),
{
    reveal(else_body);
    reveal(block);
    reveal(if_);
}

/// [`while_`], taken one step.
pub proof fn unfold_while_(ts: Seq<TokenView>, c: Cursor)
    ensures
        while_(ts, c) == ({
            let tested = condition(ts, c).after(c);
            match tested.result {
                Ok(condition) => {
                    let read = block(ts, tested.cursor);
                    match read.result {
                        Ok(body) => done(
                            StmtView {
                                line: read.cursor.line,
                                stmt_type: StmtTypeView::While { condition, body: Box::new(body) },
                            },
                            read.cursor,
                        ),
                        Err(error) => failed(error, read.cursor),
                    }
                },
                Err(error) => failed(error, tested.cursor),
            }
        }),
{
    reveal(while_);
    reveal(block);
}

/// [`sync`], taken one step.
pub proof fn unfold_sync(ts: Seq<TokenView>, c: Cursor)
    ensures
        sync(ts, c) == ({
            if starts_afresh(kind_at(ts, c)) || !(0 <= c.index && c.index + 1 < ts.len()) {
                c
            } else {
                sync(ts, Cursor { index: c.index + 1, line: ts[c.index + 1].line })
            }
        }),
{
    reveal(sync);
}

/// [`program`], taken one step.
pub proof fn unfold_program(
    ts: Seq<TokenView>,
    c: Cursor,
    statements: Seq<StmtView>,
    errors: Seq<ErrorType>,
)
    ensures
        program(ts, c, statements, errors) == ({
            if kind_at(ts, c) == TokenType::Eof {
                Program { statements, errors, cursor: c }
            } else {
                let one = statement(ts, c);
                match one.result {
                    Ok(item) => if remaining(ts, one.cursor) < remaining(ts, c) {
                        program(ts, one.cursor, statements.push(item), errors)
                    } else {
                        Program { statements: statements.push(item), errors, cursor: one.cursor }
                    },
                    Err(error) => {
                        let next = sync(ts, one.cursor);
                        if remaining(ts, next) < remaining(ts, c) {
                            program(ts, next, statements, errors.push(error))
                        } else {
                            Program { statements, errors: errors.push(error), cursor: next }
                        }
                    },
                }
            }
        }),
{
    reveal(program);
    reveal(statement);
    reveal(sync);
}

} // verus!
