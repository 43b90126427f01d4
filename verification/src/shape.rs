//! What holds of everything that [`crate::grammar`] reads: reading moves forward
//! in the tokens, and the trees of expressions follow the binding of the
//! operators.

use vstd::prelude::*;
use crate::expr::{ExprTypeView, ExprView, KeyValue};
use crate::grammar::{
    desugar_for,
    Cursor, Parsed, arguments, assignment, binary, binary_rank, binary_rest, block, block_rest,
    call, call_rest, condition, consume, element, element_rest, else_body, expect, expression,
    for_, for_body, for_condition, for_increment, function, if_, is_operator,
    is_statement_keyword, items, kind_at, literal, pairs, parameter_list, parameters, primary,
    program, remaining, starts_afresh, statement, sync, unary, unfold_arguments,
    unfold_assignment, unfold_binary, unfold_binary_rest, unfold_block, unfold_block_rest,
    unfold_call, unfold_call_rest, unfold_element, unfold_element_rest, unfold_else_body,
    unfold_expression, unfold_for_, unfold_for_body, unfold_for_condition, unfold_for_increment,
    unfold_function, unfold_if_, unfold_items, unfold_pairs, unfold_parameters, unfold_primary,
    unfold_program, unfold_statement, unfold_sync, unfold_unary, unfold_while_, while_,
};
use crate::stmt::{StmtTypeView, StmtView};
use crate::token::{TokenType, TokenView};

verus! {

/// The level of the binary expressions that `kind` is an operator of, from 0 for
/// `or` to 5 for products, if it is one.
pub open spec fn level_of(kind: TokenType) -> Option<nat> {
    if kind == TokenType::Or {
        Some(0)
    } else if kind == TokenType::And {
        Some(1)
    } else if kind == TokenType::EqualEqual || kind == TokenType::BangEqual {
        Some(2)
    } else if kind == TokenType::Greater || kind == TokenType::Less || kind
        == TokenType::GreaterEqual || kind == TokenType::LessEqual {
        Some(3)
    } else if kind == TokenType::Plus || kind == TokenType::Minus {
        Some(4)
    } else if kind == TokenType::Star || kind == TokenType::Slash || kind == TokenType::Percent {
        Some(5)
    } else {
        None
    }
}

/// How tightly the form of an expression binds: 0 for an assignment, 1 to 6 for
/// the binary expressions from `or` to products, 7 for a unary expression, 8 for
/// an element, 9 for a call and 10 for the forms that stand by themselves.
pub open spec fn tightness(e: ExprView) -> nat {
    match e.expr_type {
        ExprTypeView::Assignment { .. } => 0,
        ExprTypeView::Binary { operator, .. } => match level_of(operator.type_) {
            Some(level) => level + 1,
            None => 0,
        },
        ExprTypeView::Unary { .. } => 7,
        ExprTypeView::Element { .. } => 8,
        ExprTypeView::Call { .. } => 9,
        _ => 10,
    }
}

/// Whether a tree of expressions follows the binding of the operators, all the
/// way down. A binary operator has on its left what binds at least as tightly as
/// itself, and on its right what binds more tightly: operators of one level
/// group to the left, and a product is never a side of a sum's operand but
/// through brackets. The target of an assignment is never an assignment:
/// assignments group to the right. A unary operator, an index and an argument
/// list apply to what binds at least as tightly as themselves.
pub open spec fn well_nested(e: ExprView) -> bool
    decreases e,
{
    match e.expr_type {
        ExprTypeView::Literal { .. } => true,
        ExprTypeView::Variable { .. } => true,
        ExprTypeView::Grouping { expression } => well_nested(*expression),
        ExprTypeView::Unary { operator, right } => {
            &&& operator.type_ == TokenType::Bang || operator.type_ == TokenType::Minus
            &&& tightness(*right) >= 7
            &&& well_nested(*right)
        },
        ExprTypeView::Binary { left, operator, right } => {
            &&& level_of(operator.type_) is Some
            &&& tightness(*left) >= tightness(e)
            &&& tightness(*right) > tightness(e)
            &&& well_nested(*left)
            &&& well_nested(*right)
        },
        ExprTypeView::Assignment { target, value } => {
            &&& tightness(*target) >= 1
            &&& well_nested(*target)
            &&& well_nested(*value)
        },
        ExprTypeView::Call { callee, arguments } => {
            &&& tightness(*callee) >= 9
            &&& well_nested(*callee)
            &&& forall|i: int| 0 <= i < arguments.len() ==> well_nested(#[trigger] arguments[i])
        },
        ExprTypeView::Element { array, index } => {
            &&& tightness(*array) >= 8
            &&& well_nested(*array)
            &&& well_nested(*index)
        },
        ExprTypeView::Array { elements } => forall|i: int|
            0 <= i < elements.len() ==> well_nested(#[trigger] elements[i]),
        ExprTypeView::Dictionary { elements } => forall|i: int|
            0 <= i < elements.len() ==> well_nested((#[trigger] elements[i]).key) && well_nested(
                elements[i].value,
            ),
    }
}

/// Whether each of `list` is well nested.
pub open spec fn all_nested(list: Seq<ExprView>) -> bool {
    forall|i: int| 0 <= i < list.len() ==> well_nested(#[trigger] list[i])
}

/// Whether each key and value of `list` is well nested.
pub open spec fn all_pairs_nested(list: Seq<KeyValue<ExprView>>) -> bool {
    forall|i: int|
        0 <= i < list.len() ==> well_nested((#[trigger] list[i]).key) && well_nested(
            list[i].value,
        )
}

/// Whether every expression of a statement, and of the statements in it, is well
/// nested.
pub open spec fn statement_nested(s: StmtView) -> bool
    decreases s,
{
    match s.stmt_type {
        StmtTypeView::Expression { expression } => well_nested(expression),
        StmtTypeView::Print { expression } => well_nested(expression),
        StmtTypeView::VarDecl { value, .. } => well_nested(value),
        StmtTypeView::Block { body } => forall|i: int|
            0 <= i < body.len() ==> statement_nested(#[trigger] body[i]),
        StmtTypeView::If { condition, then_body, else_body } => {
            &&& well_nested(condition)
            &&& statement_nested(*then_body)
            &&& match else_body {
                Some(other) => statement_nested(*other),
                None => true,
            }
        },
        StmtTypeView::While { condition, body } => well_nested(condition) && statement_nested(
            *body,
        ),
        StmtTypeView::Function { body, .. } => statement_nested(*body),
        StmtTypeView::Return { expression } => match expression {
            Some(e) => well_nested(e),
            None => true,
        },
        StmtTypeView::Break => true,
    }
}

/// Whether each of `list` is nested as [`statement_nested`] says.
pub open spec fn all_statements_nested(list: Seq<StmtView>) -> bool {
    forall|i: int| 0 <= i < list.len() ==> statement_nested(#[trigger] list[i])
}

/// Whether a statement that may be there is nested as [`statement_nested`] says.
pub open spec fn optional_nested(statement: Option<StmtView>) -> bool {
    match statement {
        Some(s) => statement_nested(s),
        None => true,
    }
}

/// Whether what was read is a statement that is nested as [`statement_nested`]
/// says.
pub open spec fn nested_statement(parsed: Parsed<StmtView>) -> bool {
    parsed.result matches Ok(s) ==> statement_nested(s)
}

/// Whether the tokens end with the end of the text.
pub open spec fn ended(ts: Seq<TokenView>) -> bool {
    ts.len() > 0 && ts.last().type_ == TokenType::Eof
}

/// Whether the cursor stands at one of the tokens.
pub open spec fn inside(ts: Seq<TokenView>, c: Cursor) -> bool {
    0 <= c.index < ts.len()
}

/// Whether a reading from `c` ended no earlier than it began; and, in tokens
/// that end with the end of the text, at one of the tokens where it began at one.
pub open spec fn onward<T>(ts: Seq<TokenView>, c: Cursor, parsed: Parsed<T>) -> bool {
    &&& parsed.cursor.index >= c.index
    &&& ended(ts) && inside(ts, c) ==> inside(ts, parsed.cursor)
}

/// Whether a reading from `c` went onward, and ended later than it began where
/// it read something.
pub open spec fn forward<T>(ts: Seq<TokenView>, c: Cursor, parsed: Parsed<T>) -> bool {
    &&& onward(ts, c, parsed)
    &&& parsed.result is Ok ==> parsed.cursor.index > c.index
}

/// Whether what was read is an expression that is well nested and binds at
/// least as tightly as `tight`.
pub open spec fn nested_from(parsed: Parsed<ExprView>, tight: nat) -> bool {
    parsed.result matches Ok(e) ==> well_nested(e) && tightness(e) >= tight
}

/// An expression that is read takes tokens and is well nested.
pub proof fn lemma_expression(ts: Seq<TokenView>, c: Cursor)
    ensures
        forward(ts, c, expression(ts, c)),
        nested_from(expression(ts, c), 0),
    decreases remaining(ts, c), 19int,
{
    unfold_expression(ts, c);
    lemma_assignment(ts, c);
}

/// An assignment that is read takes tokens and is well nested: its target is
/// never an assignment.
pub proof fn lemma_assignment(ts: Seq<TokenView>, c: Cursor)
    ensures
        forward(ts, c, assignment(ts, c)),
        nested_from(assignment(ts, c), 0),
    decreases remaining(ts, c), 18int,
{
    unfold_assignment(ts, c);
    lemma_binary(ts, c, 0);
    let first = binary(ts, c, 0);
    if first.result is Ok && kind_at(ts, first.cursor) == TokenType::Equal {
        lemma_assignment(ts, consume(ts, first.cursor));
    }
}

/// A binary expression that is read takes tokens, is well nested and binds at
/// least as tightly as its level.
pub proof fn lemma_binary(ts: Seq<TokenView>, c: Cursor, level: nat)
    requires
        level <= 5,
    ensures
        forward(ts, c, binary(ts, c, level)),
        nested_from(binary(ts, c, level), level + 1),
    decreases remaining(ts, c), binary_rank(level),
{
    unfold_binary(ts, c, level);
    if level >= 5 {
        lemma_unary(ts, c);
    } else {
        lemma_binary(ts, c, level + 1);
    }
    let first = if level >= 5 {
        unary(ts, c)
    } else {
        binary(ts, c, level + 1)
    };
    match first.result {
        Ok(left) => {
            lemma_binary_rest(ts, first.cursor, level, left);
        },
        Err(_) => {},
    }
}

/// What follows an operand that is well nested and binds at least as tightly as
/// the level is so as a whole.
pub proof fn lemma_binary_rest(ts: Seq<TokenView>, c: Cursor, level: nat, left: ExprView)
    requires
        level <= 5,
        well_nested(left),
        tightness(left) >= level + 1,
    ensures
        onward(ts, c, binary_rest(ts, c, level, left)),
        nested_from(binary_rest(ts, c, level, left), level + 1),
    decreases remaining(ts, c), binary_rank(level) - 1,
{
    unfold_binary_rest(ts, c, level, left);
    if is_operator(level, kind_at(ts, c)) {
        let operator = ts[c.index];
        let start = consume(ts, c);
        if level >= 5 {
            lemma_unary(ts, start);
        } else {
            lemma_binary(ts, start, level + 1);
        }
        let second = if level >= 5 {
            unary(ts, start)
        } else {
            binary(ts, start, level + 1)
        };
        match second.result {
            Ok(right) => {
                let whole = ExprView {
                    line: second.cursor.line,
                    expr_type: ExprTypeView::Binary {
                        left: Box::new(left),
                        operator,
                        right: Box::new(right),
                    },
                };
                assert(level_of(operator.type_) == Some(level));
                assert(tightness(whole) == level + 1);
                assert(well_nested(whole));
                lemma_binary_rest(ts, second.cursor, level, whole);
            },
            Err(_) => {},
        }
    }
}

/// A unary expression that is read takes tokens, is well nested and binds at
/// least as tightly as a unary operator.
pub proof fn lemma_unary(ts: Seq<TokenView>, c: Cursor)
    ensures
        forward(ts, c, unary(ts, c)),
        nested_from(unary(ts, c), 7),
    decreases remaining(ts, c), 5int,
{
    unfold_unary(ts, c);
    if kind_at(ts, c) == TokenType::Bang || kind_at(ts, c) == TokenType::Minus {
        lemma_unary(ts, consume(ts, c));
    } else {
        lemma_element(ts, c);
    }
}

/// An element expression that is read takes tokens, is well nested and binds at
/// least as tightly as an index.
pub proof fn lemma_element(ts: Seq<TokenView>, c: Cursor)
    ensures
        forward(ts, c, element(ts, c)),
        nested_from(element(ts, c), 8),
    decreases remaining(ts, c), 4int,
{
    unfold_element(ts, c);
    lemma_call(ts, c);
    match call(ts, c).result {
        Ok(array) => {
            lemma_element_rest(ts, call(ts, c).cursor, array);
        },
        Err(_) => {},
    }
}

/// The indices that follow what is well nested and binds at least as tightly as
/// an index give what is so as a whole.
pub proof fn lemma_element_rest(ts: Seq<TokenView>, c: Cursor, array: ExprView)
    requires
        well_nested(array),
        tightness(array) >= 8,
    ensures
        onward(ts, c, element_rest(ts, c, array)),
        nested_from(element_rest(ts, c, array), 8),
    decreases remaining(ts, c), 3int,
{
    unfold_element_rest(ts, c, array);
    if kind_at(ts, c) == TokenType::LeftSquare {
        let start = consume(ts, c);
        lemma_expression(ts, start);
        let inner = expression(ts, start);
        match inner.result {
            Ok(index) => {
                let closed = expect(ts, inner.cursor, TokenType::RightSquare, ']');
                if closed.result is Ok {
                    let whole = ExprView {
                        line: inner.cursor.line,
                        expr_type: ExprTypeView::Element {
                            array: Box::new(array),
                            index: Box::new(index),
                        },
                    };
                    assert(well_nested(whole));
                    lemma_element_rest(ts, closed.cursor, whole);
                }
            },
            Err(_) => {},
        }
    }
}

/// A call expression that is read takes tokens, is well nested and binds at
/// least as tightly as an argument list.
pub proof fn lemma_call(ts: Seq<TokenView>, c: Cursor)
    ensures
        forward(ts, c, call(ts, c)),
        nested_from(call(ts, c), 9),
    decreases remaining(ts, c), 2int,
{
    unfold_call(ts, c);
    lemma_primary(ts, c);
    match primary(ts, c).result {
        Ok(callee) => {
            lemma_call_rest(ts, primary(ts, c).cursor, callee);
        },
        Err(_) => {},
    }
}

/// The argument lists that follow what is well nested and binds at least as
/// tightly as an argument list give what is so as a whole.
pub proof fn lemma_call_rest(ts: Seq<TokenView>, c: Cursor, callee: ExprView)
    requires
        well_nested(callee),
        tightness(callee) >= 9,
    ensures
        onward(ts, c, call_rest(ts, c, callee)),
        nested_from(call_rest(ts, c, callee), 9),
    decreases remaining(ts, c), 1int,
{
    unfold_call_rest(ts, c, callee);
    if kind_at(ts, c) == TokenType::LeftParen {
        let start = consume(ts, c);
        lemma_arguments(ts, start, TokenType::RightParen);
        let list = arguments(ts, start, TokenType::RightParen);
        match list.result {
            Ok(arguments) => {
                let closed = expect(ts, list.cursor, TokenType::RightParen, ')');
                if closed.result is Ok {
                    let whole = ExprView {
                        line: closed.cursor.line,
                        expr_type: ExprTypeView::Call { callee: Box::new(callee), arguments },
                    };
                    assert(well_nested(whole));
                    lemma_call_rest(ts, closed.cursor, whole);
                }
            },
            Err(_) => {},
        }
    }
}

/// The expressions of a list that is read are well nested.
pub proof fn lemma_arguments(ts: Seq<TokenView>, c: Cursor, closing: TokenType)
    ensures
        onward(ts, c, arguments(ts, c, closing)),
        arguments(ts, c, closing).result matches Ok(list) ==> all_nested(list),
    decreases remaining(ts, c), 21int,
{
    unfold_arguments(ts, c, closing);
    if kind_at(ts, c) != closing {
        lemma_items(ts, c, Seq::empty());
    }
}

/// The expressions that are read after well nested ones are well nested.
pub proof fn lemma_items(ts: Seq<TokenView>, c: Cursor, read: Seq<ExprView>)
    requires
        all_nested(read),
    ensures
        forward(ts, c, items(ts, c, read)),
        items(ts, c, read).result matches Ok(list) ==> all_nested(list),
    decreases remaining(ts, c), 20int,
{
    unfold_items(ts, c, read);
    lemma_expression(ts, c);
    let one = expression(ts, c);
    match one.result {
        Ok(item) => {
            assert(all_nested(read.push(item)));
            if kind_at(ts, one.cursor) == TokenType::Comma {
                lemma_items(ts, consume(ts, one.cursor), read.push(item));
            }
        },
        Err(_) => {},
    }
}

/// The keys and values that are read after well nested ones are well nested.
pub proof fn lemma_pairs(ts: Seq<TokenView>, c: Cursor, read: Seq<KeyValue<ExprView>>)
    requires
        all_pairs_nested(read),
    ensures
        forward(ts, c, pairs(ts, c, read)),
        pairs(ts, c, read).result matches Ok(list) ==> all_pairs_nested(list),
    decreases remaining(ts, c), 20int,
{
    unfold_pairs(ts, c, read);
    lemma_expression(ts, c);
    let first = expression(ts, c);
    match first.result {
        Ok(key) => {
            if kind_at(ts, first.cursor) == TokenType::Colon {
                let start = consume(ts, first.cursor);
                lemma_expression(ts, start);
                let second = expression(ts, start);
                match second.result {
                    Ok(value) => {
                        assert(all_pairs_nested(read.push(KeyValue { key, value })));
                        if kind_at(ts, second.cursor) == TokenType::Comma {
                            lemma_pairs(
                                ts,
                                consume(ts, second.cursor),
                                read.push(KeyValue { key, value }),
                            );
                        }
                    },
                    Err(_) => {},
                }
            }
        },
        Err(_) => {},
    }
}

/// A primary expression that is read takes tokens, is well nested and stands by
/// itself.
pub proof fn lemma_primary(ts: Seq<TokenView>, c: Cursor)
    ensures
        forward(ts, c, primary(ts, c)),
        nested_from(primary(ts, c), 10),
    decreases remaining(ts, c), 0int,
{
    unfold_primary(ts, c);
    let kind = kind_at(ts, c);
    if kind == TokenType::LeftParen {
        lemma_expression(ts, consume(ts, c));
    } else if kind == TokenType::LeftSquare {
        lemma_arguments(ts, consume(ts, c), TokenType::RightSquare);
    } else if kind == TokenType::LeftCurly {
        if kind_at(ts, consume(ts, c)) != TokenType::RightCurly {
            lemma_pairs(ts, consume(ts, c), Seq::empty());
        }
    }
}

/// Assignments group to the right: the target of an assignment that is read is
/// never an assignment itself. `a = b = 5` is read as `a = (b = 5)`.
pub proof fn lemma_assignment_groups_right(ts: Seq<TokenView>, c: Cursor)
    ensures
        expression(ts, c).result matches Ok(e) ==> (e.expr_type matches ExprTypeView::Assignment {
            target,
            ..
        } ==> !(target.expr_type is Assignment)),
{
    lemma_expression(ts, c);
}

/// Operators that bind tighter are read first: in an expression that is read, a
/// side of a product, a quotient or a remainder is never a sum or a difference,
/// but in brackets; and of two operators of one level the left one is read
/// first, so that the right side of a difference is never a sum or a difference.
pub proof fn lemma_products_before_sums(ts: Seq<TokenView>, c: Cursor)
    ensures
        expression(ts, c).result matches Ok(e) ==> (e.expr_type matches ExprTypeView::Binary {
            left,
            operator,
            right,
        } ==> {
            &&& level_of(operator.type_) == Some(5nat) ==> tightness(*left) >= 6 && tightness(
                *right,
            ) >= 7
            &&& level_of(operator.type_) == Some(4nat) ==> tightness(*left) >= 5 && tightness(
                *right,
            ) >= 6
        }),
{
    lemma_expression(ts, c);
}

/// A statement that is read takes tokens and is nested as its expressions bind;
/// and one that reads nothing does not
/// begin with a keyword that starts a statement.
pub proof fn lemma_statement(ts: Seq<TokenView>, c: Cursor)
    ensures
        forward(ts, c, statement(ts, c)),
        nested_statement(statement(ts, c)),
        statement(ts, c).cursor.index == c.index ==> !is_statement_keyword(kind_at(ts, c)),
    decreases remaining(ts, c), 0int,
{
    unfold_statement(ts, c);
    let kind = kind_at(ts, c);
    let start = consume(ts, c);
    if kind == TokenType::Break {
    } else if kind == TokenType::For {
        lemma_for_(ts, start);
    } else if kind == TokenType::Func {
        lemma_function(ts, start);
    } else if kind == TokenType::If {
        lemma_if_(ts, start);
    } else if kind == TokenType::Print {
        lemma_expression(ts, start);
    } else if kind == TokenType::Return {
        lemma_expression(ts, start);
    } else if kind == TokenType::Var {
        if kind_at(ts, start) == TokenType::Identifier {
            let assigned = expect(ts, consume(ts, start), TokenType::Equal, '=');
            if assigned.result is Ok {
                lemma_expression(ts, assigned.cursor);
            }
        }
    } else if kind == TokenType::While {
        lemma_while_(ts, start);
    } else {
        lemma_expression(ts, c);
    }
}

/// A block that is read takes tokens.
pub proof fn lemma_block(ts: Seq<TokenView>, c: Cursor)
    ensures
        forward(ts, c, block(ts, c)),
        nested_statement(block(ts, c)),
    decreases remaining(ts, c), 2int,
{
    unfold_block(ts, c);
    let opened = expect(ts, c, TokenType::LeftCurly, '{');
    if opened.result is Ok {
        lemma_block_rest(ts, opened.cursor, Seq::empty());
    }
}

/// The statements of a block are read onwards, each taking tokens: the reading
/// of a block never stops before a closing bracket, the end of the text or an
/// error.
pub proof fn lemma_block_rest(ts: Seq<TokenView>, c: Cursor, read: Seq<StmtView>)
    requires
        all_statements_nested(read),
    ensures
        onward(ts, c, block_rest(ts, c, read)),
        block_rest(ts, c, read).result matches Ok(list) ==> all_statements_nested(list),
        block_rest(ts, c, read).result is Ok ==> {
            let end = block_rest(ts, c, read).cursor;
            kind_at(ts, end) == TokenType::RightCurly || kind_at(ts, end) == TokenType::Eof
        },
    decreases remaining(ts, c), 1int,
{
    unfold_block_rest(ts, c, read);
    if !(kind_at(ts, c) == TokenType::RightCurly || kind_at(ts, c) == TokenType::Eof) {
        lemma_statement(ts, c);
        let one = statement(ts, c);
        match one.result {
            Ok(item) => {
                assert(all_statements_nested(read.push(item)));
                lemma_block_rest(ts, one.cursor, read.push(item));
            },
            Err(_) => {},
        }
    }
}

/// A `for` loop that is read takes tokens.
pub proof fn lemma_for_(ts: Seq<TokenView>, c: Cursor)
    ensures
        forward(ts, c, for_(ts, c)),
        nested_statement(for_(ts, c)),
    decreases remaining(ts, c), 3int,
{
    unfold_for_(ts, c);
    let opened = expect(ts, c, TokenType::LeftParen, '(');
    if opened.result is Ok {
        if kind_at(ts, opened.cursor) == TokenType::Semicolon {
            lemma_for_condition(ts, opened.cursor, None);
        } else {
            lemma_statement(ts, opened.cursor);
            let first = statement(ts, opened.cursor);
            match first.result {
                Ok(initialiser) => {
                    lemma_for_condition(ts, first.cursor, Some(initialiser));
                },
                Err(_) => {},
            }
        }
    }
}

/// A `for` loop that is read from its condition on takes tokens.
pub proof fn lemma_for_condition(ts: Seq<TokenView>, c: Cursor, initialiser: Option<StmtView>)
    requires
        optional_nested(initialiser),
    ensures
        forward(ts, c, for_condition(ts, c, initialiser)),
        nested_statement(for_condition(ts, c, initialiser)),
    decreases remaining(ts, c), 3int,
{
    unfold_for_condition(ts, c, initialiser);
    if kind_at(ts, c) == TokenType::Semicolon {
        let start = consume(ts, c);
        if kind_at(ts, start) == TokenType::Semicolon {
            lemma_for_increment(
                ts,
                start,
                initialiser,
                literal(crate::token::LiteralView::Bool(true), start.line),
            );
        } else {
            lemma_expression(ts, start);
            let read = expression(ts, start);
            match read.result {
                Ok(condition) => {
                    lemma_for_increment(ts, read.cursor, initialiser, condition);
                },
                Err(_) => {},
            }
        }
    }
}

/// A `for` loop that is read from its increment on takes tokens.
pub proof fn lemma_for_increment(
    ts: Seq<TokenView>,
    c: Cursor,
    initialiser: Option<StmtView>,
    condition: ExprView,
)
    requires
        optional_nested(initialiser),
        well_nested(condition),
    ensures
        forward(ts, c, for_increment(ts, c, initialiser, condition)),
        nested_statement(for_increment(ts, c, initialiser, condition)),
    decreases remaining(ts, c), 3int,
{
    unfold_for_increment(ts, c, initialiser, condition);
    if kind_at(ts, c) == TokenType::Semicolon {
        let start = consume(ts, c);
        if kind_at(ts, start) == TokenType::RightParen {
            lemma_for_body(ts, start, initialiser, condition, None);
        } else {
            lemma_statement(ts, start);
            let read = statement(ts, start);
            match read.result {
                Ok(increment) => {
                    lemma_for_body(ts, read.cursor, initialiser, condition, Some(increment));
                },
                Err(_) => {},
            }
        }
    }
}

/// A `for` loop that is read from its body on takes tokens.
pub proof fn lemma_for_body(
    ts: Seq<TokenView>,
    c: Cursor,
    initialiser: Option<StmtView>,
    condition: ExprView,
    increment: Option<StmtView>,
)
    requires
        optional_nested(initialiser),
        well_nested(condition),
        optional_nested(increment),
    ensures
        forward(ts, c, for_body(ts, c, initialiser, condition, increment)),
        nested_statement(for_body(ts, c, initialiser, condition, increment)),
    decreases remaining(ts, c), 3int,
{
    unfold_for_body(ts, c, initialiser, condition, increment);
    if kind_at(ts, c) == TokenType::RightParen {
        lemma_block(ts, consume(ts, c));
        let read = block(ts, consume(ts, c));
        match read.result {
            Ok(body) => {
                lemma_desugar_nested(initialiser, condition, increment, body, read.cursor.line);
            },
            Err(_) => {},
        }
    }
}

/// A `for` loop is written as statements that are nested as its parts are.
pub proof fn lemma_desugar_nested(
    initialiser: Option<StmtView>,
    condition: ExprView,
    increment: Option<StmtView>,
    body: StmtView,
    line: usize,
)
    requires
        optional_nested(initialiser),
        well_nested(condition),
        optional_nested(increment),
        statement_nested(body),
    ensures
        statement_nested(desugar_for(initialiser, condition, increment, body, line)),
{
    let inner = match increment {
        Some(step) => seq![body, step],
        None => seq![body],
    };
    assert(all_statements_nested(inner));
    let while_body = StmtView { line, stmt_type: StmtTypeView::Block { body: inner } };
    assert(statement_nested(while_body));
    let while_loop = StmtView {
        line,
        stmt_type: StmtTypeView::While { condition, body: Box::new(while_body) },
    };
    assert(statement_nested(while_loop));
    match initialiser {
        Some(first) => {
            assert(all_statements_nested(seq![first, while_loop]));
        },
        None => {
            assert(all_statements_nested(seq![while_loop]));
        },
    }
}

/// The names of a parameter list that are read take tokens.
pub proof fn lemma_parameters(ts: Seq<TokenView>, c: Cursor, read: Seq<Seq<char>>)
    ensures
        forward(ts, c, parameters(ts, c, read)),
    decreases remaining(ts, c),
{
    unfold_parameters(ts, c, read);
    if kind_at(ts, c) == TokenType::Identifier {
        let named = consume(ts, c);
        if kind_at(ts, named) == TokenType::Comma {
            lemma_parameters(ts, consume(ts, named), read.push(ts[c.index].lexeme));
        }
    }
}

/// A function declaration that is read takes tokens.
pub proof fn lemma_function(ts: Seq<TokenView>, c: Cursor)
    ensures
        forward(ts, c, function(ts, c)),
        nested_statement(function(ts, c)),
    decreases remaining(ts, c), 3int,
{
    unfold_function(ts, c);
    if kind_at(ts, c) == TokenType::Identifier {
        let opened = expect(ts, consume(ts, c), TokenType::LeftParen, '(');
        if opened.result is Ok {
            if kind_at(ts, opened.cursor) != TokenType::RightParen {
                lemma_parameters(ts, opened.cursor, Seq::empty());
            }
            let list = parameter_list(ts, opened.cursor);
            if list.result is Ok {
                let closed = expect(ts, list.cursor, TokenType::RightParen, ')');
                if closed.result is Ok {
                    lemma_block(ts, closed.cursor);
                }
            }
        }
    }
}

/// A condition in round brackets that is read takes tokens.
pub proof fn lemma_condition(ts: Seq<TokenView>, c: Cursor)
    ensures
        forward(ts, c, condition(ts, c)),
        nested_from(condition(ts, c), 0),
{
    let opened = expect(ts, c, TokenType::LeftParen, '(');
    if opened.result is Ok {
        lemma_expression(ts, opened.cursor);
    }
}

/// An `if` statement that is read takes tokens.
pub proof fn lemma_if_(ts: Seq<TokenView>, c: Cursor)
    ensures
        forward(ts, c, if_(ts, c)),
        nested_statement(if_(ts, c)),
    decreases remaining(ts, c), 3int,
{
    unfold_if_(ts, c);
    lemma_condition(ts, c);
    let tested = condition(ts, c);
    if tested.result is Ok {
        lemma_block(ts, tested.cursor);
        let first = block(ts, tested.cursor);
        if first.result is Ok && kind_at(ts, first.cursor) == TokenType::Else {
            lemma_else_body(ts, consume(ts, first.cursor));
        }
    }
}

/// What follows `else` takes tokens where it is read.
pub proof fn lemma_else_body(ts: Seq<TokenView>, c: Cursor)
    ensures
        forward(ts, c, else_body(ts, c)),
        nested_statement(else_body(ts, c)),
    decreases remaining(ts, c), 3int,
{
    unfold_else_body(ts, c);
    if kind_at(ts, c) == TokenType::If {
        lemma_if_(ts, consume(ts, c));
    } else {
        lemma_block(ts, c);
    }
}

/// A `while` loop that is read takes tokens.
pub proof fn lemma_while_(ts: Seq<TokenView>, c: Cursor)
    ensures
        forward(ts, c, while_(ts, c)),
        nested_statement(while_(ts, c)),
    decreases remaining(ts, c), 3int,
{
    unfold_while_(ts, c);
    lemma_condition(ts, c);
    let tested = condition(ts, c);
    if tested.result is Ok {
        lemma_block(ts, tested.cursor);
    }
}

/// Reading starts again no earlier than where the error was met, and later where
/// it cannot start again there. In tokens that end with the end of the text, it
/// starts again at a token at which it may.
pub proof fn lemma_sync(ts: Seq<TokenView>, c: Cursor)
    ensures
        sync(ts, c).index >= c.index,
        ended(ts) && inside(ts, c) ==> {
            &&& inside(ts, sync(ts, c))
            &&& starts_afresh(kind_at(ts, sync(ts, c)))
            &&& !starts_afresh(kind_at(ts, c)) ==> sync(ts, c).index > c.index
        },
    decreases remaining(ts, c),
{
    unfold_sync(ts, c);
    if !(starts_afresh(kind_at(ts, c)) || !(0 <= c.index && c.index + 1 < ts.len())) {
        lemma_sync(ts, Cursor { index: c.index + 1, line: ts[c.index + 1].line });
    }
}

/// In tokens that end with the end of the text, a program is read up to the end
/// of the text: every statement and every new start after an error take tokens,
/// so that reading stops nowhere else. Every expression of the statements that
/// are read is well nested.
pub proof fn lemma_program(
    ts: Seq<TokenView>,
    c: Cursor,
    statements: Seq<StmtView>,
    errors: Seq<crate::error::ErrorType>,
)
    requires
        ended(ts),
        inside(ts, c),
        all_statements_nested(statements),
    ensures
        all_statements_nested(program(ts, c, statements, errors).statements),
        inside(ts, program(ts, c, statements, errors).cursor),
        kind_at(ts, program(ts, c, statements, errors).cursor) == TokenType::Eof,
        program(ts, c, statements, errors).cursor.index >= c.index,
        program(ts, c, statements, errors).statements.len() >= statements.len(),
        program(ts, c, statements, errors).errors.len() >= errors.len(),
    decreases remaining(ts, c),
{
    unfold_program(ts, c, statements, errors);
    if kind_at(ts, c) != TokenType::Eof {
        lemma_statement(ts, c);
        let one = statement(ts, c);
        match one.result {
            Ok(item) => {
                assert(all_statements_nested(statements.push(item)));
                lemma_program(ts, one.cursor, statements.push(item), errors);
            },
            Err(error) => {
                lemma_sync(ts, one.cursor);
                let again = sync(ts, one.cursor);
                lemma_program(ts, again, statements, errors.push(error));
            },
        }
    }
}

} // verus!
