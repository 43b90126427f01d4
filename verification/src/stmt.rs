//! Statements: what a program is made of.

use vstd::prelude::*;
use crate::expr::{expr_view, same_expr, Expr, ExprView};

verus! {

/// A statement, with the line of the source text that it comes from.
#[derive(Debug, PartialEq)]
pub struct Stmt {
    pub line: usize,
    pub stmt_type: StmtType,
}

/// The forms a statement can have. There is no form for a `for` loop: the parser
/// writes it as a block and a `while` loop.
#[derive(Debug, PartialEq)]
#[allow(inconsistent_fields)]
pub enum StmtType {
    Expression { expression: Expr },
    Print { expression: Expr },
    VarDecl { name: String, value: Expr },
    Block { body: Vec<Stmt> },
    If { condition: Expr, then_body: Box<Stmt>, else_body: Option<Box<Stmt>> },
    While { condition: Expr, body: Box<Stmt> },
    Function { name: String, parameters: Vec<String>, body: Box<Stmt> },
    Return { expression: Option<Expr> },
    Break,
}

/// What a [`Stmt`] is in contracts.
pub struct StmtView {
    pub line: usize,
    pub stmt_type: StmtTypeView,
}

/// What a [`StmtType`] is in contracts.
#[allow(inconsistent_fields)]
pub enum StmtTypeView {
    Expression { expression: ExprView },
    Print { expression: ExprView },
    VarDecl { name: Seq<char>, value: ExprView },
    Block { body: Seq<StmtView> },
    If { condition: ExprView, then_body: Box<StmtView>, else_body: Option<Box<StmtView>> },
    While { condition: ExprView, body: Box<StmtView> },
    Function { name: Seq<char>, parameters: Seq<Seq<char>>, body: Box<StmtView> },
    Return { expression: Option<ExprView> },
    Break,
}

/// The view of a statement, by recursion over the tree.
pub open spec fn stmt_view(s: Stmt) -> StmtView
    decreases s,
{
    StmtView { line: s.line, stmt_type: stmt_type_view(s.stmt_type) }
}

/// The view of a statement's form, by recursion over the tree.
pub open spec fn stmt_type_view(t: StmtType) -> StmtTypeView
    decreases t,
{
    match t {
        StmtType::Expression { expression } => StmtTypeView::Expression {
            expression: expr_view(expression),
        },
        StmtType::Print { expression } => StmtTypeView::Print { expression: expr_view(expression) },
        StmtType::VarDecl { name, value } => StmtTypeView::VarDecl {
            name: name@,
            value: expr_view(value),
        },
        StmtType::Block { body } => StmtTypeView::Block {
            body: Seq::new(
                body.len() as nat,
                |i: int|
                    if 0 <= i < body.len() {
                        stmt_view(body[i])
                    } else {
                        arbitrary()
                    },
            ),
        },
        StmtType::If { condition, then_body, else_body } => StmtTypeView::If {
            condition: expr_view(condition),
            then_body: Box::new(stmt_view(*then_body)),
            else_body: match else_body {
                Some(other) => Some(Box::new(stmt_view(*other))),
                None => None,
            },
        },
        StmtType::While { condition, body } => StmtTypeView::While {
            condition: expr_view(condition),
            body: Box::new(stmt_view(*body)),
        },
        StmtType::Function { name, parameters, body } => StmtTypeView::Function {
            name: name@,
            parameters: name_views(parameters@),
            body: Box::new(stmt_view(*body)),
        },
        StmtType::Return { expression } => StmtTypeView::Return {
            expression: match expression {
                Some(e) => Some(expr_view(e)),
                None => None,
            },
        },
        StmtType::Break => StmtTypeView::Break,
    }
}

impl View for Stmt {
    type V = StmtView;

    open spec fn view(&self) -> StmtView {
        stmt_view(*self)
    }
}

/// Whether two lists of names are the same, item by item.
pub fn same_names(a: &Vec<String>, b: &Vec<String>) -> (same: bool)
    ensures
        same == (name_views(a@) == name_views(b@)),
{
    if a.len() != b.len() {
        assert(name_views(a@).len() != name_views(b@).len());
        return false;
    }
    let mut i: usize = 0;
    while i < a.len()
        invariant
            i <= a.len(),
            a.len() == b.len(),
            forall|j: int| 0 <= j < i ==> a@[j]@ == b@[j]@,
        decreases a.len() - i,
    {
        if a[i] != b[i] {
            assert(name_views(a@)[i as int] != name_views(b@)[i as int]);
            return false;
        }
        i += 1;
    }
    assert(name_views(a@) =~= name_views(b@));
    true
}

/// Whether two lists of statements are the same, item by item.
pub fn same_stmts(a: &Vec<Stmt>, b: &Vec<Stmt>) -> (same: bool)
    ensures
        same == (stmt_views(a@) == stmt_views(b@)),
    decreases a,
{
    if a.len() != b.len() {
        assert(stmt_views(a@).len() != stmt_views(b@).len());
        return false;
    }
    let mut i: usize = 0;
    while i < a.len()
        invariant
            i <= a.len(),
            a.len() == b.len(),
            forall|j: int| 0 <= j < i ==> stmt_view(a@[j]) == stmt_view(b@[j]),
        decreases a.len() - i,
    {
        proof {
            vstd::std_specs::vec::axiom_vec_index_decreases(*a, i as int);
        }
        if !same_stmt(&a[i], &b[i]) {
            assert(stmt_views(a@)[i as int] != stmt_views(b@)[i as int]);
            return false;
        }
        i += 1;
    }
    assert(stmt_views(a@) =~= stmt_views(b@));
    true
}

/// Whether two statements are the same tree.
pub fn same_stmt(a: &Stmt, b: &Stmt) -> (same: bool)
    ensures
        same == (a@ == b@),
    decreases a,
{
    if a.line != b.line {
        return false;
    }
    match (&a.stmt_type, &b.stmt_type) {
        (StmtType::Expression { expression: x }, StmtType::Expression { expression: y }) => same_expr(
            x,
            y,
        ),
        (StmtType::Print { expression: x }, StmtType::Print { expression: y }) => same_expr(x, y),
        (StmtType::VarDecl { name: n, value: x }, StmtType::VarDecl { name: m, value: y }) => *n
            == *m && same_expr(x, y),
        (StmtType::Block { body: x }, StmtType::Block { body: y }) => {
            proof {
                lemma_block_view(*x);
                lemma_block_view(*y);
                assert(decreases_to!(*a => a.stmt_type));
                assert(decreases_to!(a.stmt_type => a.stmt_type->Block_body));
            }
            same_stmts(x, y)
        },
        (
            StmtType::If { condition: c, then_body: t, else_body: e },
            StmtType::If { condition: d, then_body: u, else_body: f },
        ) => same_expr(c, d) && same_stmt(t, u) && match (e, f) {
            (Some(x), Some(y)) => same_stmt(x, y),
            (None, None) => true,
            _ => false,
        },
        (
            StmtType::While { condition: c, body: x },
            StmtType::While { condition: d, body: y },
        ) => same_expr(c, d) && same_stmt(x, y),
        (
            StmtType::Function { name: n, parameters: p, body: x },
            StmtType::Function { name: m, parameters: q, body: y },
        ) => *n == *m && same_names(p, q) && same_stmt(x, y),
        (StmtType::Return { expression: x }, StmtType::Return { expression: y }) => match (x, y) {
            (Some(e), Some(f)) => same_expr(e, f),
            (None, None) => true,
            _ => false,
        },
        (StmtType::Break, StmtType::Break) => true,
        _ => false,
    }
}

/// A copy of a list of names.
pub fn clone_names(names: &Vec<String>) -> (copies: Vec<String>)
    ensures
        name_views(copies@) == name_views(names@),
{
    let mut copies: Vec<String> = Vec::new();
    let mut i: usize = 0;
    while i < names.len()
        invariant
            i <= names.len(),
            copies@.len() == i,
            forall|j: int| 0 <= j < i ==> copies@[j]@ == names@[j]@,
        decreases names.len() - i,
    {
        copies.push(names[i].clone());
        i += 1;
    }
    assert(name_views(copies@) =~= name_views(names@));
    copies
}

impl Clone for Stmt {
    /// A copy of the whole tree.
    fn clone(&self) -> (copy: Self)
        ensures
            copy@ == self@,
        decreases self,
    {
        let stmt_type = match &self.stmt_type {
            StmtType::Expression { expression } => StmtType::Expression {
                expression: expression.clone(),
            },
            StmtType::Print { expression } => StmtType::Print { expression: expression.clone() },
            StmtType::VarDecl { name, value } => StmtType::VarDecl {
                name: name.clone(),
                value: value.clone(),
            },
            StmtType::Block { body } => {
                let mut copies: Vec<Stmt> = Vec::new();
                let mut i: usize = 0;
                while i < body.len()
                    invariant
                        i <= body.len(),
                        self.stmt_type == (StmtType::Block { body: *body }),
                        copies@.len() == i,
                        forall|j: int| 0 <= j < i ==> stmt_view(copies@[j]) == stmt_view(body@[j]),
                    decreases body.len() - i,
                {
                    proof {
                        assert(decreases_to!(*self => self.stmt_type));
                        assert(decreases_to!(self.stmt_type => self.stmt_type->Block_body));
                        vstd::std_specs::vec::axiom_vec_index_decreases(*body, i as int);
                    }
                    copies.push(body[i].clone());
                    i += 1;
                }
                proof {
                    lemma_block_view(*body);
                    lemma_block_view(copies);
                    assert(stmt_views(copies@) =~= stmt_views(body@));
                }
                StmtType::Block { body: copies }
            },
            StmtType::If { condition, then_body, else_body } => StmtType::If {
                condition: condition.clone(),
                then_body: Box::new((&**then_body).clone()),
                else_body: match else_body {
                    Some(other) => Some(Box::new((&**other).clone())),
                    None => None,
                },
            },
            StmtType::While { condition, body } => StmtType::While {
                condition: condition.clone(),
                body: Box::new((&**body).clone()),
            },
            StmtType::Function { name, parameters, body } => StmtType::Function {
                name: name.clone(),
                parameters: clone_names(parameters),
                body: Box::new((&**body).clone()),
            },
            StmtType::Return { expression } => StmtType::Return {
                expression: match expression {
                    Some(e) => Some(e.clone()),
                    None => None,
                },
            },
            StmtType::Break => StmtType::Break,
        };
        Stmt { line: self.line, stmt_type }
    }
}

/// The views of a sequence of names, one by one.
pub open spec fn name_views(names: Seq<String>) -> Seq<Seq<char>> {
    Seq::new(names.len(), |i: int| names[i]@)
}

/// The view of a statement that may be there.
pub open spec fn optional_view(statement: Option<Stmt>) -> Option<StmtView> {
    match statement {
        Some(s) => Some(s@),
        None => None,
    }
}

/// The views of a sequence of statements, one by one.
pub open spec fn stmt_views(stmts: Seq<Stmt>) -> Seq<StmtView> {
    Seq::new(stmts.len(), |i: int| stmt_view(stmts[i]))
}

/// The views of a sequence of names with one more name.
pub proof fn lemma_push_name(names: Seq<String>, name: String)
    ensures
        name_views(names.push(name)) == name_views(names).push(name@),
{
    assert(name_views(names.push(name)) =~= name_views(names).push(name@));
}

/// The views of a sequence of statements with one more statement.
pub proof fn lemma_push_stmt(stmts: Seq<Stmt>, s: Stmt)
    ensures
        stmt_views(stmts.push(s)) == stmt_views(stmts).push(stmt_view(s)),
{
    assert(stmt_views(stmts.push(s)) =~= stmt_views(stmts).push(stmt_view(s)));
}

/// The view of a block, written over the view of its statement list.
pub proof fn lemma_block_view(body: Vec<Stmt>)
    ensures
        stmt_type_view(StmtType::Block { body }) == (StmtTypeView::Block {
            body: stmt_views(body@),
        }),
{
    let direct = stmt_type_view(StmtType::Block { body });
    assert(direct->Block_body =~= stmt_views(body@));
}

} // verus!
