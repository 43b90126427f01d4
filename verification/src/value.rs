//! Values: what an expression evaluates to.

use vstd::prelude::*;
use crate::stmt::{clone_names, name_views, stmt_view, Stmt, StmtView};

verus! {

/// A value of the language.
///
/// A number is held as the bit pattern of a double-precision number. An array or a
/// dictionary is held as a handle to its storage, so that two values with the same
/// handle are the same container and see each other's changes. A function holds the
/// handle of the scope it was declared in.
#[derive(Debug, PartialEq)]
pub enum Value {
    Number(u64),
    Bool(bool),
    String_(String),
    Null,
    Array(usize),
    Dictionary(usize),
    Function { parameters: Vec<String>, body: Box<Stmt>, closure: usize },
}

/// What a [`Value`] is in contracts.
pub enum ValueView {
    Number(u64),
    Bool(bool),
    String_(Seq<char>),
    Null,
    Array(usize),
    Dictionary(usize),
    Function { parameters: Seq<Seq<char>>, body: StmtView, closure: usize },
}

impl View for Value {
    type V = ValueView;

    open spec fn view(&self) -> ValueView {
        match self {
            Value::Number(bits) => ValueView::Number(*bits),
            Value::Bool(b) => ValueView::Bool(*b),
            Value::String_(text) => ValueView::String_(text@),
            Value::Null => ValueView::Null,
            Value::Array(handle) => ValueView::Array(*handle),
            Value::Dictionary(handle) => ValueView::Dictionary(*handle),
            Value::Function { parameters, body, closure } => ValueView::Function {
                parameters: name_views(parameters@),
                body: stmt_view(**body),
                closure: *closure,
            },
        }
    }
}

impl Clone for Value {
    /// A copy of the value. The copy of an array or a dictionary is the same
    /// container: it holds the same handle.
    fn clone(&self) -> (copy: Self)
        ensures
            copy@ == self@,
    {
        match self {
            Value::Number(bits) => Value::Number(*bits),
            Value::Bool(b) => Value::Bool(*b),
            Value::String_(text) => Value::String_(text.clone()),
            Value::Null => Value::Null,
            Value::Array(handle) => Value::Array(*handle),
            Value::Dictionary(handle) => Value::Dictionary(*handle),
            Value::Function { parameters, body, closure } => Value::Function {
                parameters: clone_names(parameters),
                body: Box::new((&**body).clone()),
                closure: *closure,
            },
        }
    }
}

} // verus!
