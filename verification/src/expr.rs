//! Expressions: the tree that the parser builds and the interpreter evaluates.

use vstd::prelude::*;
use crate::token::{same_literal, same_token, Literal, LiteralView, Token, TokenView};

verus! {

/// A key and the value that belongs to it.
#[derive(Debug, PartialEq)]
pub struct KeyValue<T> {
    pub key: T,
    pub value: T,
}

/// An expression, with the line of the source text that it comes from.
#[derive(Debug, PartialEq)]
pub struct Expr {
    pub line: usize,
    pub expr_type: ExprType,
}

/// The forms an expression can have.
#[derive(Debug, PartialEq)]
#[allow(inconsistent_fields)]
pub enum ExprType {
    Literal { value: Literal },
    Grouping { expression: Box<Expr> },
    Unary { operator: Token, right: Box<Expr> },
    Binary { left: Box<Expr>, operator: Token, right: Box<Expr> },
    Assignment { target: Box<Expr>, value: Box<Expr> },
    Variable { name: String },
    Call { callee: Box<Expr>, arguments: Vec<Expr> },
    Element { array: Box<Expr>, index: Box<Expr> },
    Array { elements: Vec<Expr> },
    Dictionary { elements: Vec<KeyValue<Expr>> },
}

/// What an [`Expr`] is in contracts.
pub struct ExprView {
    pub line: usize,
    pub expr_type: ExprTypeView,
}

/// What an [`ExprType`] is in contracts.
#[allow(inconsistent_fields)]
pub enum ExprTypeView {
    Literal { value: LiteralView },
    Grouping { expression: Box<ExprView> },
    Unary { operator: TokenView, right: Box<ExprView> },
    Binary { left: Box<ExprView>, operator: TokenView, right: Box<ExprView> },
    Assignment { target: Box<ExprView>, value: Box<ExprView> },
    Variable { name: Seq<char> },
    Call { callee: Box<ExprView>, arguments: Seq<ExprView> },
    Element { array: Box<ExprView>, index: Box<ExprView> },
    Array { elements: Seq<ExprView> },
    Dictionary { elements: Seq<KeyValue<ExprView>> },
}

/// The view of an expression, by recursion over the tree.
pub open spec fn expr_view(e: Expr) -> ExprView
    decreases e,
{
    ExprView { line: e.line, expr_type: expr_type_view(e.expr_type) }
}

/// The view of an expression's form, by recursion over the tree.
pub open spec fn expr_type_view(t: ExprType) -> ExprTypeView
    decreases t,
{
    match t {
        ExprType::Literal { value } => ExprTypeView::Literal { value: value@ },
        ExprType::Grouping { expression } => ExprTypeView::Grouping {
            expression: Box::new(expr_view(*expression)),
        },
        ExprType::Unary { operator, right } => ExprTypeView::Unary {
            operator: operator@,
            right: Box::new(expr_view(*right)),
        },
        ExprType::Binary { left, operator, right } => ExprTypeView::Binary {
            left: Box::new(expr_view(*left)),
            operator: operator@,
            right: Box::new(expr_view(*right)),
        },
        ExprType::Assignment { target, value } => ExprTypeView::Assignment {
            target: Box::new(expr_view(*target)),
            value: Box::new(expr_view(*value)),
        },
        ExprType::Variable { name } => ExprTypeView::Variable { name: name@ },
        ExprType::Call { callee, arguments } => ExprTypeView::Call {
            callee: Box::new(expr_view(*callee)),
            arguments: Seq::new(
                arguments.len() as nat,
                |i: int|
                    if 0 <= i < arguments.len() {
                        expr_view(arguments[i])
                    } else {
                        arbitrary()
                    },
            ),
        },
        ExprType::Element { array, index } => ExprTypeView::Element {
            array: Box::new(expr_view(*array)),
            index: Box::new(expr_view(*index)),
        },
        ExprType::Array { elements } => ExprTypeView::Array {
            elements: Seq::new(
                elements.len() as nat,
                |i: int|
                    if 0 <= i < elements.len() {
                        expr_view(elements[i])
                    } else {
                        arbitrary()
                    },
            ),
        },
        ExprType::Dictionary { elements } => ExprTypeView::Dictionary {
            elements: Seq::new(
                elements.len() as nat,
                |i: int|
                    if 0 <= i < elements.len() {
                        KeyValue {
                            key: expr_view(elements[i].key),
                            value: expr_view(elements[i].value),
                        }
                    } else {
                        arbitrary()
                    },
            ),
        },
    }
}

impl View for Expr {
    type V = ExprView;

    open spec fn view(&self) -> ExprView {
        expr_view(*self)
    }
}

impl Clone for Expr {
    /// A copy of the whole tree.
    fn clone(&self) -> (copy: Self)
        ensures
            copy@ == self@,
        decreases self,
    {
        let expr_type = match &self.expr_type {
            ExprType::Literal { value } => ExprType::Literal { value: value.clone() },
            ExprType::Grouping { expression } => ExprType::Grouping {
                expression: Box::new((&**expression).clone()),
            },
            ExprType::Unary { operator, right } => ExprType::Unary {
                operator: operator.clone(),
                right: Box::new((&**right).clone()),
            },
            ExprType::Binary { left, operator, right } => ExprType::Binary {
                left: Box::new((&**left).clone()),
                operator: operator.clone(),
                right: Box::new((&**right).clone()),
            },
            ExprType::Assignment { target, value } => ExprType::Assignment {
                target: Box::new((&**target).clone()),
                value: Box::new((&**value).clone()),
            },
            ExprType::Variable { name } => ExprType::Variable { name: name.clone() },
            ExprType::Call { callee, arguments } => {
                let mut copies: Vec<Expr> = Vec::new();
                let mut i: usize = 0;
                while i < arguments.len()
                    invariant
                        i <= arguments.len(),
                        self.expr_type == (ExprType::Call {
                            callee: *callee,
                            arguments: *arguments,
                        }),
                        copies@.len() == i,
                        forall|j: int| 0 <= j < i ==> expr_view(copies@[j]) == expr_view(arguments@[j]),
                    decreases arguments.len() - i,
                {
                    proof {
                        assert(decreases_to!(*self => self.expr_type));
                        assert(decreases_to!(self.expr_type => self.expr_type->arguments));
                        vstd::std_specs::vec::axiom_vec_index_decreases(*arguments, i as int);
                    }
                    copies.push(arguments[i].clone());
                    i += 1;
                }
                proof {
                    lemma_call_view(**callee, *arguments);
                    assert(expr_views(copies@) =~= expr_views(arguments@));
                }
                let copy = Box::new((&**callee).clone());
                proof {
                    lemma_call_view(*copy, copies);
                }
                ExprType::Call { callee: copy, arguments: copies }
            },
            ExprType::Element { array, index } => ExprType::Element {
                array: Box::new((&**array).clone()),
                index: Box::new((&**index).clone()),
            },
            ExprType::Array { elements } => {
                let mut copies: Vec<Expr> = Vec::new();
                let mut i: usize = 0;
                while i < elements.len()
                    invariant
                        i <= elements.len(),
                        self.expr_type == (ExprType::Array { elements: *elements }),
                        copies@.len() == i,
                        forall|j: int| 0 <= j < i ==> expr_view(copies@[j]) == expr_view(elements@[j]),
                    decreases elements.len() - i,
                {
                    proof {
                        assert(decreases_to!(*self => self.expr_type));
                        assert(decreases_to!(self.expr_type => self.expr_type->Array_elements));
                        vstd::std_specs::vec::axiom_vec_index_decreases(*elements, i as int);
                    }
                    copies.push(elements[i].clone());
                    i += 1;
                }
                proof {
                    lemma_array_view(*elements);
                    lemma_array_view(copies);
                    assert(expr_views(copies@) =~= expr_views(elements@));
                }
                ExprType::Array { elements: copies }
            },
            ExprType::Dictionary { elements } => {
                let mut copies: Vec<KeyValue<Expr>> = Vec::new();
                let mut i: usize = 0;
                while i < elements.len()
                    invariant
                        i <= elements.len(),
                        self.expr_type == (ExprType::Dictionary { elements: *elements }),
                        copies@.len() == i,
                        forall|j: int|
                            0 <= j < i ==> expr_view(copies@[j].key) == expr_view(elements@[j].key)
                                && expr_view(copies@[j].value) == expr_view(elements@[j].value),
                    decreases elements.len() - i,
                {
                    proof {
                        assert(decreases_to!(*self => self.expr_type));
                        assert(decreases_to!(self.expr_type => self.expr_type->Dictionary_elements));
                        vstd::std_specs::vec::axiom_vec_index_decreases(*elements, i as int);
                        assert(decreases_to!(elements@[i as int] => elements@[i as int].key));
                        assert(decreases_to!(elements@[i as int] => elements@[i as int].value));
                    }
                    let key = elements[i].key.clone();
                    let value = elements[i].value.clone();
                    copies.push(KeyValue { key, value });
                    i += 1;
                }
                proof {
                    lemma_dictionary_view(*elements);
                    lemma_dictionary_view(copies);
                    assert(pair_views(copies@) =~= pair_views(elements@));
                }
                ExprType::Dictionary { elements: copies }
            },
        };
        Expr { line: self.line, expr_type }
    }
}

/// Whether two lists of expressions are the same, item by item.
pub fn same_exprs(a: &Vec<Expr>, b: &Vec<Expr>) -> (same: bool)
    ensures
        same == (expr_views(a@) == expr_views(b@)),
    decreases a,
{
    if a.len() != b.len() {
        assert(expr_views(a@).len() != expr_views(b@).len());
        return false;
    }
    let mut i: usize = 0;
    while i < a.len()
        invariant
            i <= a.len(),
            a.len() == b.len(),
            forall|j: int| 0 <= j < i ==> expr_view(a@[j]) == expr_view(b@[j]),
        decreases a.len() - i,
    {
        proof {
            vstd::std_specs::vec::axiom_vec_index_decreases(*a, i as int);
        }
        if !same_expr(&a[i], &b[i]) {
            assert(expr_views(a@)[i as int] != expr_views(b@)[i as int]);
            return false;
        }
        i += 1;
    }
    assert(expr_views(a@) =~= expr_views(b@));
    true
}

/// Whether two lists of key-value pairs are the same, item by item.
pub fn same_pairs(a: &Vec<KeyValue<Expr>>, b: &Vec<KeyValue<Expr>>) -> (same: bool)
    ensures
        same == (pair_views(a@) == pair_views(b@)),
    decreases a,
{
    if a.len() != b.len() {
        assert(pair_views(a@).len() != pair_views(b@).len());
        return false;
    }
    let mut i: usize = 0;
    while i < a.len()
        invariant
            i <= a.len(),
            a.len() == b.len(),
            forall|j: int|
                0 <= j < i ==> expr_view(a@[j].key) == expr_view(b@[j].key) && expr_view(
                    a@[j].value,
                ) == expr_view(b@[j].value),
        decreases a.len() - i,
    {
        proof {
            vstd::std_specs::vec::axiom_vec_index_decreases(*a, i as int);
            assert(decreases_to!(a@[i as int] => a@[i as int].key));
            assert(decreases_to!(a@[i as int] => a@[i as int].value));
        }
        if !same_expr(&a[i].key, &b[i].key) || !same_expr(&a[i].value, &b[i].value) {
            assert(pair_views(a@)[i as int] != pair_views(b@)[i as int]);
            return false;
        }
        i += 1;
    }
    assert(pair_views(a@) =~= pair_views(b@));
    true
}

/// Whether two expressions are the same tree.
pub fn same_expr(a: &Expr, b: &Expr) -> (same: bool)
    ensures
        same == (a@ == b@),
    decreases a,
{
    if a.line != b.line {
        return false;
    }
    match (&a.expr_type, &b.expr_type) {
        (ExprType::Literal { value: x }, ExprType::Literal { value: y }) => same_literal(x, y),
        (ExprType::Grouping { expression: x }, ExprType::Grouping { expression: y }) => same_expr(
            x,
            y,
        ),
        (
            ExprType::Unary { operator: o, right: x },
            ExprType::Unary { operator: p, right: y },
        ) => same_token(o, p) && same_expr(x, y),
        (
            ExprType::Binary { left: l, operator: o, right: x },
            ExprType::Binary { left: m, operator: p, right: y },
        ) => same_expr(l, m) && same_token(o, p) && same_expr(x, y),
        (
            ExprType::Assignment { target: t, value: x },
            ExprType::Assignment { target: u, value: y },
        ) => same_expr(t, u) && same_expr(x, y),
        (ExprType::Variable { name: x }, ExprType::Variable { name: y }) => *x == *y,
        (
            ExprType::Call { callee: c, arguments: x },
            ExprType::Call { callee: d, arguments: y },
        ) => {
            proof {
                lemma_call_view(**c, *x);
                lemma_call_view(**d, *y);
                assert(decreases_to!(*a => a.expr_type));
                assert(decreases_to!(a.expr_type => a.expr_type->arguments));
            }
            same_expr(c, d) && same_exprs(x, y)
        },
        (
            ExprType::Element { array: l, index: x },
            ExprType::Element { array: m, index: y },
        ) => same_expr(l, m) && same_expr(x, y),
        (ExprType::Array { elements: x }, ExprType::Array { elements: y }) => {
            proof {
                lemma_array_view(*x);
                lemma_array_view(*y);
                assert(decreases_to!(*a => a.expr_type));
                assert(decreases_to!(a.expr_type => a.expr_type->Array_elements));
            }
            same_exprs(x, y)
        },
        (ExprType::Dictionary { elements: x }, ExprType::Dictionary { elements: y }) => {
            proof {
                lemma_dictionary_view(*x);
                lemma_dictionary_view(*y);
                assert(decreases_to!(*a => a.expr_type));
                assert(decreases_to!(a.expr_type => a.expr_type->Dictionary_elements));
            }
            same_pairs(x, y)
        },
        _ => false,
    }
}

/// The views of a sequence of expressions, one by one.
pub open spec fn expr_views(exprs: Seq<Expr>) -> Seq<ExprView> {
    Seq::new(exprs.len(), |i: int| expr_view(exprs[i]))
}

/// The views of a sequence of key-value pairs, one by one.
pub open spec fn pair_views(pairs: Seq<KeyValue<Expr>>) -> Seq<KeyValue<ExprView>> {
    Seq::new(
        pairs.len(),
        |i: int| KeyValue { key: expr_view(pairs[i].key), value: expr_view(pairs[i].value) },
    )
}

/// The views of a sequence of expressions with one more expression.
pub proof fn lemma_push_expr(exprs: Seq<Expr>, e: Expr)
    ensures
        expr_views(exprs.push(e)) == expr_views(exprs).push(expr_view(e)),
{
    assert(expr_views(exprs.push(e)) =~= expr_views(exprs).push(expr_view(e)));
}

/// The views of a sequence of key-value pairs with one more pair.
pub proof fn lemma_push_pair(pairs: Seq<KeyValue<Expr>>, pair: KeyValue<Expr>)
    ensures
        pair_views(pairs.push(pair)) == pair_views(pairs).push(
            KeyValue { key: expr_view(pair.key), value: expr_view(pair.value) },
        ),
{
    assert(pair_views(pairs.push(pair)) =~= pair_views(pairs).push(
        KeyValue { key: expr_view(pair.key), value: expr_view(pair.value) },
    ));
}

/// The view of a call, written over the view of its argument list.
pub proof fn lemma_call_view(callee: Expr, arguments: Vec<Expr>)
    ensures
        expr_type_view(ExprType::Call { callee: Box::new(callee), arguments })
            == (ExprTypeView::Call {
            callee: Box::new(expr_view(callee)),
            arguments: expr_views(arguments@),
        }),
{
    let direct = expr_type_view(ExprType::Call { callee: Box::new(callee), arguments });
    assert(direct->Call_arguments =~= expr_views(arguments@));
}

/// The view of an array literal, written over the view of its element list.
pub proof fn lemma_array_view(elements: Vec<Expr>)
    ensures
        expr_type_view(ExprType::Array { elements }) == (ExprTypeView::Array {
            elements: expr_views(elements@),
        }),
{
    let direct = expr_type_view(ExprType::Array { elements });
    assert(direct->Array_elements =~= expr_views(elements@));
}

/// The view of a dictionary literal, written over the view of its pair list.
pub proof fn lemma_dictionary_view(elements: Vec<KeyValue<Expr>>)
    ensures
        expr_type_view(ExprType::Dictionary { elements }) == (ExprTypeView::Dictionary {
            elements: pair_views(elements@),
        }),
{
    let direct = expr_type_view(ExprType::Dictionary { elements });
    assert(direct->Dictionary_elements =~= pair_views(elements@));
}

} // verus!
