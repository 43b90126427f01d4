//! The machine of the interpreter, as contracts see it: what its parts are, and
//! what one step makes of them.

use vstd::prelude::*;
use crate::environment::{
    assign_model, child_scope, get_model, lookup, released, resolve, settled, with_binding,
    with_capture, ScopeView,
};
use crate::error::ErrorView;
use crate::expr::{expr_views, pair_views, ExprTypeView, ExprView, KeyValue};
use crate::heap::{
    is_key, key_model, keys_equal, kind_name_of, lemma_key_round_trip, read_array_model,
    read_dictionary_model, read_string_model, value_of, value_views, write_array_model,
    write_dictionary_model, write_string_model, HeapView,
};
use crate::interpreter::{Action, Event, Frame, Pair, Pending, Signal, State};
use crate::number;
use crate::stmt::{optional_view, stmt_views, StmtTypeView, StmtView};
use crate::token::{LiteralView, TokenType};
use crate::value::ValueView;

verus! {

/// What a [`Pair`] is in contracts.
pub struct PairView {
    pub left: ValueView,
    pub right: ValueView,
}

impl View for Pair {
    type V = PairView;

    open spec fn view(&self) -> PairView {
        PairView { left: self.left@, right: self.right@ }
    }
}

/// The views of a sequence of pairs, one by one.
pub open spec fn pair_of_views(pairs: Seq<Pair>) -> Seq<PairView> {
    Seq::new(pairs.len(), |i: int| pairs[i]@)
}

/// The view of a name that may be there.
pub open spec fn optional_name(name: Option<String>) -> Option<Seq<char>> {
    match name {
        Some(n) => Some(n@),
        None => None,
    }
}

/// What a [`Signal`] is in contracts.
#[allow(inconsistent_fields)]
pub enum SignalView {
    Broke { line: usize },
    Returned { value: ValueView, line: usize },
}

impl View for Signal {
    type V = SignalView;

    open spec fn view(&self) -> SignalView {
        match *self {
            Signal::Broke { line } => SignalView::Broke { line },
            Signal::Returned { value, line } => SignalView::Returned { value: value@, line },
        }
    }
}

/// What a [`Pending`] is in contracts.
#[allow(inconsistent_fields)]
pub enum PendingView {
    Numeral { text: Seq<char> },
    Arithmetic { operator: TokenType, left: u64, right: u64 },
    Comparison { operator: TokenType, left: u64, right: u64 },
}

impl View for Pending {
    type V = PendingView;

    open spec fn view(&self) -> PendingView {
        match *self {
            Pending::Numeral { text } => PendingView::Numeral { text: text@ },
            Pending::Arithmetic { operator, left, right } => PendingView::Arithmetic {
                operator,
                left,
                right,
            },
            Pending::Comparison { operator, left, right } => PendingView::Comparison {
                operator,
                left,
                right,
            },
        }
    }
}

/// What an [`Action`] is in contracts.
#[allow(inconsistent_fields)]
pub enum ActionView {
    Continue,
    Print(ValueView),
    Numeral(Seq<char>),
    Arithmetic { operator: TokenType, left: u64, right: u64 },
    Comparison { operator: TokenType, left: u64, right: u64 },
    Done,
    Failed(ErrorView),
}

impl View for Action {
    type V = ActionView;

    open spec fn view(&self) -> ActionView {
        match *self {
            Action::Continue => ActionView::Continue,
            Action::Print(inner) => ActionView::Print(inner@),
            Action::Numeral(inner) => ActionView::Numeral(inner@),
            Action::Arithmetic { operator, left, right } => ActionView::Arithmetic {
                operator,
                left,
                right,
            },
            Action::Comparison { operator, left, right } => ActionView::Comparison {
                operator,
                left,
                right,
            },
            Action::Done => ActionView::Done,
            Action::Failed(inner) => ActionView::Failed(inner@),
        }
    }
}

/// What a [`State`] is in contracts.
#[allow(inconsistent_fields)]
pub enum StateView {
    Idle,
    Run(StmtView),
    Finish,
    Reduce(ExprView),
    Return(ValueView),
    Unwind(SignalView),
    Await(PendingView),
    Compare { pairs: Seq<PairView>, negate: bool },
}

impl View for State {
    type V = StateView;

    open spec fn view(&self) -> StateView {
        match *self {
            State::Idle => StateView::Idle,
            State::Run(inner) => StateView::Run(inner@),
            State::Finish => StateView::Finish,
            State::Reduce(inner) => StateView::Reduce(inner@),
            State::Return(inner) => StateView::Return(inner@),
            State::Unwind(inner) => StateView::Unwind(inner@),
            State::Await(inner) => StateView::Await(inner@),
            State::Compare { pairs, negate } => StateView::Compare {
                pairs: pair_of_views(pairs@),
                negate,
            },
        }
    }
}

/// What a [`Frame`] is in contracts.
#[allow(inconsistent_fields)]
pub enum FrameView {
    Sequence { rest: Seq<StmtView> },
    Block { rest: Seq<StmtView>, outer: usize },
    Discard,
    Print,
    Define { name: Seq<char> },
    Branch { then_body: StmtView, else_body: Option<StmtView>, line: usize },
    LoopTest { condition: ExprView, body: StmtView, line: usize },
    LoopBody { condition: ExprView, body: StmtView, line: usize },
    ReturnValue { line: usize },
    Unary { operator: TokenType, line: usize },
    Logic { operator: TokenType, right: ExprView, line: usize },
    LogicRight { line: usize },
    BinaryLeft { operator: TokenType, right: ExprView, line: usize },
    BinaryRight { operator: TokenType, left: ValueView, line: usize },
    AssignVariable { name: Seq<char>, line: usize },
    AssignValue { array: ExprView, index: ExprView, line: usize },
    AssignContainer { value: ValueView, index: ExprView, variable: Option<Seq<char>>, line: usize },
    AssignIndex {
        value: ValueView,
        container: ValueView,
        variable: Option<Seq<char>>,
        line: usize,
    },
    Callee { arguments: Seq<ExprView>, line: usize },
    Arguments { function: ValueView, done: Seq<ValueView>, rest: Seq<ExprView>, line: usize },
    Call { outer: usize },
    ElementContainer { index: ExprView, line: usize },
    ElementIndex { container: ValueView, line: usize },
    Elements { done: Seq<ValueView>, rest: Seq<ExprView> },
    EntryKey { handle: usize, value: ExprView, rest: Seq<KeyValue<ExprView>>, line: usize },
    EntryValue { handle: usize, key: ValueView, rest: Seq<KeyValue<ExprView>>, line: usize },
}

impl View for Frame {
    type V = FrameView;

    open spec fn view(&self) -> FrameView {
        match *self {
            Frame::Sequence { rest } => FrameView::Sequence { rest: stmt_views(rest@) },
            Frame::Block { rest, outer } => FrameView::Block { rest: stmt_views(rest@), outer },
            Frame::Discard => FrameView::Discard,
            Frame::Print => FrameView::Print,
            Frame::Define { name } => FrameView::Define { name: name@ },
            Frame::Branch { then_body, else_body, line } => FrameView::Branch {
                then_body: then_body@,
                else_body: optional_view(else_body),
                line,
            },
            Frame::LoopTest { condition, body, line } => FrameView::LoopTest {
                condition: condition@,
                body: body@,
                line,
            },
            Frame::LoopBody { condition, body, line } => FrameView::LoopBody {
                condition: condition@,
                body: body@,
                line,
            },
            Frame::ReturnValue { line } => FrameView::ReturnValue { line },
            Frame::Unary { operator, line } => FrameView::Unary { operator, line },
            Frame::Logic { operator, right, line } => FrameView::Logic {
                operator,
                right: right@,
                line,
            },
            Frame::LogicRight { line } => FrameView::LogicRight { line },
            Frame::BinaryLeft { operator, right, line } => FrameView::BinaryLeft {
                operator,
                right: right@,
                line,
            },
            Frame::BinaryRight { operator, left, line } => FrameView::BinaryRight {
                operator,
                left: left@,
                line,
            },
            Frame::AssignVariable { name, line } => FrameView::AssignVariable { name: name@, line },
            Frame::AssignValue { array, index, line } => FrameView::AssignValue {
                array: array@,
                index: index@,
                line,
            },
            Frame::AssignContainer { value, index, variable, line } => FrameView::AssignContainer {
                value: value@,
                index: index@,
                variable: optional_name(variable),
                line,
            },
            Frame::AssignIndex { value, container, variable, line } => FrameView::AssignIndex {
                value: value@,
                container: container@,
                variable: optional_name(variable),
                line,
            },
            Frame::Callee { arguments, line } => FrameView::Callee {
                arguments: expr_views(arguments@),
                line,
            },
            Frame::Arguments { function, done, rest, line } => FrameView::Arguments {
                function: function@,
                done: value_views(done@),
                rest: expr_views(rest@),
                line,
            },
            Frame::Call { outer } => FrameView::Call { outer },
            Frame::ElementContainer { index, line } => FrameView::ElementContainer {
                index: index@,
                line,
            },
            Frame::ElementIndex { container, line } => FrameView::ElementIndex {
                container: container@,
                line,
            },
            Frame::Elements { done, rest } => FrameView::Elements {
                done: value_views(done@),
                rest: expr_views(rest@),
            },
            Frame::EntryKey { handle, value, rest, line } => FrameView::EntryKey {
                handle,
                value: value@,
                rest: pair_views(rest@),
                line,
            },
            Frame::EntryValue { handle, key, rest, line } => FrameView::EntryValue {
                handle,
                key: key@,
                rest: pair_views(rest@),
                line,
            },
        }
    }
}

/// The views of a sequence of frames, one by one.
pub open spec fn frame_views(frames: Seq<Frame>) -> Seq<FrameView> {
    Seq::new(frames.len(), |i: int| frames[i]@)
}

/// What a machine is in contracts: its scopes, its heap, the scope it is in, its
/// frames from the lowest to the top, and its state.
pub struct MachineView {
    pub scopes: Seq<ScopeView>,
    pub heap: HeapView,
    pub scope: usize,
    pub frames: Seq<FrameView>,
    pub state: StateView,
}

/// What a step makes: the machine after it, and what it asks of the caller.
pub struct Outcome {
    pub machine: MachineView,
    pub action: ActionView,
}

/// The machine goes on in `state`.
pub open spec fn going(m: MachineView, state: StateView) -> Outcome {
    Outcome { machine: MachineView { state, ..m }, action: ActionView::Continue }
}

/// The machine puts `frame` on top and goes on in `state`.
pub open spec fn pushing(m: MachineView, frame: FrameView, state: StateView) -> Outcome {
    going(MachineView { frames: m.frames.push(frame), ..m }, state)
}

/// The machine gives up what is loaded, with `error`: it has no frames, is in the
/// global scope and idle, and the scopes that the statements were in are given
/// up. What the other scopes and the heap hold stays.
pub open spec fn failing(m: MachineView, error: ErrorView) -> Outcome {
    Outcome {
        machine: MachineView {
            scopes: settled(m.scopes),
            frames: Seq::empty(),
            scope: 0,
            state: StateView::Idle,
            ..m
        },
        action: ActionView::Failed(error),
    }
}

/// What the machine asks of the caller while it waits for `pending`.
pub open spec fn request(pending: PendingView) -> ActionView {
    match pending {
        PendingView::Numeral { text } => ActionView::Numeral(text),
        PendingView::Arithmetic { operator, left, right } => ActionView::Arithmetic {
            operator,
            left,
            right,
        },
        PendingView::Comparison { operator, left, right } => ActionView::Comparison {
            operator,
            left,
            right,
        },
    }
}

/// The machine asks the caller for `pending` and waits.
pub open spec fn asking(m: MachineView, pending: PendingView) -> Outcome {
    Outcome {
        machine: MachineView { state: StateView::Await(pending), ..m },
        action: request(pending),
    }
}

/// The machine without its top frame.
pub open spec fn popped(m: MachineView) -> MachineView {
    MachineView { frames: m.frames.drop_last(), ..m }
}

/// The machine in a new scope under `parent`.
pub open spec fn scoped(m: MachineView, parent: usize) -> MachineView {
    MachineView { scopes: m.scopes.push(child_scope(parent)), scope: m.scopes.len() as usize, ..m }
}

/// The machine back in the scope `outer`, after the scope it was in is left.
pub open spec fn left(m: MachineView, outer: usize) -> MachineView {
    MachineView { scopes: released(m.scopes, m.scope as int), scope: outer, ..m }
}

/// The error that a signal is when it leaves the statements that were loaded.
pub open spec fn thrown_model(signal: SignalView) -> ErrorView {
    match signal {
        SignalView::Broke { line } => ErrorView::ThrownBreak { line },
        SignalView::Returned { value, line } => ErrorView::ThrownReturn { value, line },
    }
}

/// The error of a value that is not of the type `wanted`.
pub open spec fn expected_model(wanted: Seq<char>, value: ValueView, line: usize) -> ErrorView {
    ErrorView::ExpectedType { expected: wanted, got: kind_name_of(value), line }
}

/// The error of two operands that are not both of the type `wanted`.
pub open spec fn mismatch_model(wanted: Seq<char>, left: ValueView, right: ValueView, line: usize)
    -> ErrorView {
    ErrorView::BinaryTypeError {
        expected: wanted,
        got_left: kind_name_of(left),
        got_right: kind_name_of(right),
        line,
    }
}

/// Whether a value can be indexed: an array, a string or a dictionary.
pub open spec fn is_indexable(value: ValueView) -> bool {
    value is Array || value is String_ || value is Dictionary
}

/// What a unary operator gives of a value: `-` the number of the opposite sign,
/// `!` the opposite truth value; of a value of another type an error; and an
/// operator that is neither is no expression.
pub open spec fn unary_model(operator: TokenType, value: ValueView, line: usize) -> Result<
    ValueView,
    ErrorView,
> {
    match operator {
        TokenType::Minus => match value {
            ValueView::Number(bits) => Ok(ValueView::Number(number::negated(bits))),
            _ => Err(expected_model("Number"@, value, line)),
        },
        TokenType::Bang => match value {
            ValueView::Bool(truth) => Ok(ValueView::Bool(!truth)),
            _ => Err(expected_model("Bool"@, value, line)),
        },
        _ => Err(ErrorView::ExpectedExpression { line }),
    }
}

/// What checking a call of `callee` with `arguments` arguments gives: the callee
/// has to be a function, and the function has to have as many parameters.
pub open spec fn call_check_model(callee: ValueView, arguments: nat, line: usize) -> Result<
    (),
    ErrorView,
> {
    match callee {
        ValueView::Function { parameters, .. } => if parameters.len() == arguments {
            Ok(())
        } else {
            Err(
                ErrorView::ArgParamNumberMismatch {
                    arg_number: arguments as usize,
                    param_number: parameters.len() as usize,
                    line,
                },
            )
        },
        _ => Err(ErrorView::CannotCallName { line }),
    }
}

/// Running a statement.
#[verifier::opaque]
pub open spec fn run_model(m: MachineView, statement: StmtView) -> Outcome {
    let line = statement.line;
    match statement.stmt_type {
        StmtTypeView::Expression { expression } => pushing(
            m,
            FrameView::Discard,
            StateView::Reduce(expression),
        ),
        StmtTypeView::Print { expression } => pushing(
            m,
            FrameView::Print,
            StateView::Reduce(expression),
        ),
        StmtTypeView::VarDecl { name, value } => pushing(
            m,
            FrameView::Define { name },
            StateView::Reduce(value),
        ),
        StmtTypeView::Block { body } => pushing(
            scoped(m, m.scope),
            FrameView::Block { rest: body.reverse(), outer: m.scope },
            StateView::Finish,
        ),
        StmtTypeView::If { condition, then_body, else_body } => pushing(
            m,
            FrameView::Branch {
                then_body: *then_body,
                else_body: match else_body {
                    Some(other) => Some(*other),
                    None => None,
                },
                line,
            },
            StateView::Reduce(condition),
        ),
        StmtTypeView::While { condition, body } => pushing(
            m,
            FrameView::LoopTest { condition, body: *body, line },
            StateView::Reduce(condition),
        ),
        StmtTypeView::Function { name, parameters, body } => going(
            MachineView {
                scopes: with_capture(
                    with_binding(
                        m.scopes,
                        m.scope as int,
                        name,
                        ValueView::Function { parameters, body: *body, closure: m.scope },
                    ),
                    m.scope as int,
                ),
                ..m
            },
            StateView::Finish,
        ),
        StmtTypeView::Return { expression } => match expression {
            Some(value) => pushing(m, FrameView::ReturnValue { line }, StateView::Reduce(value)),
            None => going(
                m,
                StateView::Unwind(SignalView::Returned { value: ValueView::Null, line }),
            ),
        },
        StmtTypeView::Break => going(m, StateView::Unwind(SignalView::Broke { line })),
    }
}

/// Going on after a statement has ended: with the next statement of the block or
/// of what was loaded; after the last with what comes after the block, in the
/// scope around it, and the scope of the block is left. A loop tests its condition again; a call whose body has ended
/// has the value null.
#[verifier::opaque]
pub open spec fn finish_model(m: MachineView) -> Outcome {
    let rest = popped(m);
    match m.frames.last() {
        FrameView::Sequence { rest: statements } => if statements.len() > 0 {
            going(
                MachineView {
                    frames: rest.frames.push(FrameView::Sequence { rest: statements.drop_last() }),
                    ..rest
                },
                StateView::Run(statements.last()),
            )
        } else {
            Outcome {
                machine: MachineView { scope: 0, state: StateView::Idle, ..rest },
                action: ActionView::Done,
            }
        },
        FrameView::Block { rest: statements, outer } => if statements.len() > 0 {
            going(
                MachineView {
                    frames: rest.frames.push(
                        FrameView::Block { rest: statements.drop_last(), outer },
                    ),
                    ..rest
                },
                StateView::Run(statements.last()),
            )
        } else {
            going(left(rest, outer), StateView::Finish)
        },
        FrameView::LoopBody { condition, body, line } => pushing(
            rest,
            FrameView::LoopTest { condition, body, line },
            StateView::Reduce(condition),
        ),
        FrameView::Call { outer } => going(left(rest, outer), StateView::Return(ValueView::Null)),
        _ => going(m, StateView::Finish),
    }
}

/// Carrying a signal one frame outwards. A block that is left gives back the
/// scope around it. A loop ends by a `break` that reaches it. A call has the
/// value of a `return` that reaches it, in the scope of the caller; a `break`
/// goes on through it. A signal that leaves the statements that were loaded is
/// an error.
#[verifier::opaque]
pub open spec fn unwind_model(m: MachineView, signal: SignalView) -> Outcome {
    if m.frames.len() == 0 {
        failing(m, thrown_model(signal))
    } else {
        let rest = popped(m);
        match m.frames.last() {
            FrameView::Sequence { .. } => failing(rest, thrown_model(signal)),
            FrameView::Block { outer, .. } => going(left(rest, outer), StateView::Unwind(signal)),
            FrameView::LoopBody { .. } => match signal {
                SignalView::Broke { .. } => going(rest, StateView::Finish),
                SignalView::Returned { .. } => going(rest, StateView::Unwind(signal)),
            },
            FrameView::Call { outer } => match signal {
                SignalView::Returned { value, .. } => going(
                    left(rest, outer),
                    StateView::Return(value),
                ),
                SignalView::Broke { .. } => going(left(rest, outer), StateView::Unwind(signal)),
            },
            _ => going(rest, StateView::Unwind(signal)),
        }
    }
}

/// Taking the answer of the caller: the number or the truth that was asked for
/// is the value of the expression that waited for it. An answer of another kind
/// is none: the machine asks again.
#[verifier::opaque]
pub open spec fn resume_model(m: MachineView, pending: PendingView, event: Event) -> Outcome {
    match (pending, event) {
        (PendingView::Numeral { .. }, Event::Number(bits)) => going(
            m,
            StateView::Return(ValueView::Number(bits)),
        ),
        (PendingView::Arithmetic { .. }, Event::Number(bits)) => going(
            m,
            StateView::Return(ValueView::Number(bits)),
        ),
        (PendingView::Comparison { .. }, Event::Truth(truth)) => going(
            m,
            StateView::Return(ValueView::Bool(truth)),
        ),
        _ => asking(m, pending),
    }
}

/// Going on with the next element of an array literal, after those in `done`;
/// after the last, the literal has its value: a new array.
#[verifier::opaque]
pub open spec fn next_element_model(m: MachineView, done: Seq<ValueView>, rest: Seq<ExprView>)
    -> Outcome {
    if rest.len() > 0 {
        pushing(
            m,
            FrameView::Elements { done, rest: rest.drop_last() },
            StateView::Reduce(rest.last()),
        )
    } else {
        going(
            MachineView {
                heap: HeapView {
                    arrays: m.heap.arrays.push(done),
                    dictionaries: m.heap.dictionaries,
                },
                ..m
            },
            StateView::Return(ValueView::Array(m.heap.arrays.len() as usize)),
        )
    }
}

/// Going on with the next entry of a dictionary literal, which is being built in
/// the dictionary `handle`; after the last, the literal has its value.
#[verifier::opaque]
pub open spec fn next_entry_model(
    m: MachineView,
    handle: usize,
    rest: Seq<KeyValue<ExprView>>,
    line: usize,
) -> Outcome {
    if rest.len() > 0 {
        pushing(
            m,
            FrameView::EntryKey { handle, value: rest.last().value, rest: rest.drop_last(), line },
            StateView::Reduce(rest.last().key),
        )
    } else {
        going(m, StateView::Return(ValueView::Dictionary(handle)))
    }
}

/// The scopes after each of `names` from position `from` on is bound, in `scope`,
/// to the value at its position in `values`.
pub open spec fn bound(
    scopes: Seq<ScopeView>,
    scope: int,
    names: Seq<Seq<char>>,
    values: Seq<ValueView>,
    from: int,
) -> Seq<ScopeView>
    decreases names.len() - from,
{
    if 0 <= from < names.len() {
        bound(
            with_binding(scopes, scope, names[from], values[from]),
            scope,
            names,
            values,
            from + 1,
        )
    } else {
        scopes
    }
}

/// Calling `function` with `arguments`: in a new scope under the scope that the
/// function was declared in, each parameter is bound to its argument, and the
/// body runs there. What is called has to be a function with as many parameters
/// as there are arguments, declared in a scope that exists.
#[verifier::opaque]
pub open spec fn call_model(
    m: MachineView,
    function: ValueView,
    arguments: Seq<ValueView>,
    line: usize,
) -> Outcome {
    match call_check_model(function, arguments.len(), line) {
        Err(error) => failing(m, error),
        Ok(_) => match function {
            ValueView::Function { parameters, body, closure } => if closure >= m.scopes.len() {
                failing(m, ErrorView::CannotCallName { line })
            } else {
                let inner = scoped(m, closure);
                pushing(
                    MachineView {
                        scopes: bound(inner.scopes, inner.scope as int, parameters, arguments, 0),
                        ..inner
                    },
                    FrameView::Call { outer: m.scope },
                    StateView::Run(body),
                )
            },
            _ => failing(m, ErrorView::CannotCallName { line }),
        },
    }
}

/// Going on with the next argument of a call, after those in `done`; after the
/// last, the function is called.
#[verifier::opaque]
pub open spec fn next_argument_model(
    m: MachineView,
    function: ValueView,
    done: Seq<ValueView>,
    rest: Seq<ExprView>,
    line: usize,
) -> Outcome {
    if rest.len() > 0 {
        pushing(
            m,
            FrameView::Arguments { function, done, rest: rest.drop_last(), line },
            StateView::Reduce(rest.last()),
        )
    } else {
        call_model(m, function, done, line)
    }
}

/// Evaluating an expression: a constant, a name and an empty literal have their
/// value at once, but that the number of a numeral is asked of the caller; every
/// other form first evaluates a part, for which a frame waits. Parts are
/// evaluated from left to right, but that an assignment evaluates the assigned
/// value first, and after it the container and the index of an element that it
/// assigns to. An assignment to what is neither a name nor an element is an
/// error, found before anything is evaluated.
#[verifier::opaque]
pub open spec fn reduce_model(m: MachineView, expression: ExprView) -> Outcome {
    let line = expression.line;
    match expression.expr_type {
        ExprTypeView::Literal { value } => match value {
            LiteralView::Number(text) => asking(m, PendingView::Numeral { text }),
            LiteralView::Bool(truth) => going(m, StateView::Return(ValueView::Bool(truth))),
            LiteralView::String_(text) => going(m, StateView::Return(ValueView::String_(text))),
            LiteralView::Null => going(m, StateView::Return(ValueView::Null)),
        },
        ExprTypeView::Grouping { expression } => going(m, StateView::Reduce(*expression)),
        ExprTypeView::Unary { operator, right } => pushing(
            m,
            FrameView::Unary { operator: operator.type_, line },
            StateView::Reduce(*right),
        ),
        ExprTypeView::Binary { left, operator, right } => if operator.type_ == TokenType::And
            || operator.type_ == TokenType::Or {
            pushing(
                m,
                FrameView::Logic { operator: operator.type_, right: *right, line },
                StateView::Reduce(*left),
            )
        } else {
            pushing(
                m,
                FrameView::BinaryLeft { operator: operator.type_, right: *right, line },
                StateView::Reduce(*left),
            )
        },
        ExprTypeView::Assignment { target, value } => match target.expr_type {
            ExprTypeView::Variable { name } => pushing(
                m,
                FrameView::AssignVariable { name, line },
                StateView::Reduce(*value),
            ),
            ExprTypeView::Element { array, index } => pushing(
                m,
                FrameView::AssignValue { array: *array, index: *index, line },
                StateView::Reduce(*value),
            ),
            _ => failing(m, ErrorView::InvalidAssignmentTarget { line }),
        },
        ExprTypeView::Variable { name } => match get_model(m.scopes, m.scope as int, name, line) {
            Ok(value) => going(m, StateView::Return(value)),
            Err(error) => failing(m, error),
        },
        ExprTypeView::Call { callee, arguments } => pushing(
            m,
            FrameView::Callee { arguments, line },
            StateView::Reduce(*callee),
        ),
        ExprTypeView::Element { array, index } => pushing(
            m,
            FrameView::ElementContainer { index: *index, line },
            StateView::Reduce(*array),
        ),
        ExprTypeView::Array { elements } => next_element_model(
            m,
            Seq::empty(),
            elements.reverse(),
        ),
        ExprTypeView::Dictionary { elements } => next_entry_model(
            MachineView {
                heap: HeapView {
                    arrays: m.heap.arrays,
                    dictionaries: m.heap.dictionaries.push(Seq::empty()),
                },
                ..m
            },
            m.heap.dictionaries.len() as usize,
            elements.reverse(),
            line,
        ),
    }
}

/// What reading the element of `container` at `index` gives. Only an array, a
/// string and a dictionary have elements.
#[verifier::opaque]
pub open spec fn read_model(heap: HeapView, container: ValueView, index: ValueView, line: usize)
    -> Result<ValueView, ErrorView> {
    match container {
        ValueView::Array(handle) => if handle < heap.arrays.len() {
            read_array_model(heap, handle as int, index, line)
        } else {
            Err(ErrorView::NotIndexable { line })
        },
        ValueView::String_(text) => read_string_model(text, index, line),
        ValueView::Dictionary(handle) => if handle < heap.dictionaries.len() {
            read_dictionary_model(heap, handle as int, index, line)
        } else {
            Err(ErrorView::NotIndexable { line })
        },
        _ => Err(ErrorView::NotIndexable { line }),
    }
}

/// The heap after `value` is written to the element of the array `handle` at
/// `index`, if there is such an array.
pub open spec fn write_element_model(
    heap: HeapView,
    handle: usize,
    index: ValueView,
    value: ValueView,
    line: usize,
) -> (HeapView, Result<(), ErrorView>) {
    if handle < heap.arrays.len() {
        write_array_model(heap, handle as int, index, value, line)
    } else {
        (heap, Err(ErrorView::NotIndexable { line }))
    }
}

/// The heap after `value` is written for `key` in the dictionary `handle`, if
/// there is such a dictionary.
pub open spec fn write_entry_model(
    heap: HeapView,
    handle: usize,
    key: ValueView,
    value: ValueView,
    line: usize,
) -> (HeapView, Result<(), ErrorView>) {
    if handle < heap.dictionaries.len() {
        write_dictionary_model(heap, handle as int, key, value, line)
    } else {
        (heap, Err(ErrorView::NotIndexable { line }))
    }
}

/// Writing `assigned` to the element of `container` at `index`. An array and a
/// dictionary are written in place. A string is a value of its own: the written
/// string becomes the value of `variable` where the container is one, and is
/// dropped else. The assignment has the value that was assigned.
#[verifier::opaque]
pub open spec fn write_model(
    m: MachineView,
    container: ValueView,
    index: ValueView,
    assigned: ValueView,
    variable: Option<Seq<char>>,
    line: usize,
) -> Outcome {
    let written: (MachineView, Result<(), ErrorView>) = match container {
        ValueView::Array(handle) => {
            let (heap, result) = write_element_model(m.heap, handle, index, assigned, line);
            (MachineView { heap, ..m }, result)
        },
        ValueView::String_(text) => match write_string_model(text, index, assigned, line) {
            Ok(changed) => match variable {
                Some(name) => {
                    let (scopes, result) = assign_model(
                        m.scopes,
                        m.scope as int,
                        name,
                        ValueView::String_(changed),
                        line,
                    );
                    (MachineView { scopes, ..m }, result)
                },
                None => (m, Ok(())),
            },
            Err(error) => (m, Err(error)),
        },
        ValueView::Dictionary(handle) => {
            let (heap, result) = write_entry_model(m.heap, handle, index, assigned, line);
            (MachineView { heap, ..m }, result)
        },
        _ => (m, Err(ErrorView::NotIndexable { line })),
    };
    match written.1 {
        Ok(_) => going(written.0, StateView::Return(assigned)),
        Err(error) => failing(written.0, error),
    }
}

/// Applying a binary operator to the values of its two sides. Equality is
/// settled by comparing, which takes steps of its own. `+` joins two strings; on
/// two numbers it and the other operators of arithmetic and of comparison are
/// asked of the caller, but that a division by zero is an error. Operands of
/// other types are an error, and an operator that is none of these is no
/// expression.
#[verifier::opaque]
pub open spec fn binary_model(
    m: MachineView,
    operator: TokenType,
    left: ValueView,
    right: ValueView,
    line: usize,
) -> Outcome {
    match operator {
        TokenType::EqualEqual | TokenType::BangEqual => going(
            m,
            StateView::Compare {
                pairs: seq![PairView { left, right }],
                negate: operator == TokenType::BangEqual,
            },
        ),
        TokenType::Plus => match (left, right) {
            (ValueView::Number(a), ValueView::Number(b)) => asking(
                m,
                PendingView::Arithmetic { operator, left: a, right: b },
            ),
            (ValueView::String_(a), ValueView::String_(b)) => going(
                m,
                StateView::Return(ValueView::String_(a + b)),
            ),
            _ => failing(m, mismatch_model("Number or String"@, left, right, line)),
        },
        TokenType::Minus | TokenType::Star => match (left, right) {
            (ValueView::Number(a), ValueView::Number(b)) => asking(
                m,
                PendingView::Arithmetic { operator, left: a, right: b },
            ),
            _ => failing(m, mismatch_model("Number"@, left, right, line)),
        },
        TokenType::Slash | TokenType::Percent => match (left, right) {
            (ValueView::Number(a), ValueView::Number(b)) => if number::is_zero(b) {
                failing(m, ErrorView::DivideByZero { line })
            } else {
                asking(m, PendingView::Arithmetic { operator, left: a, right: b })
            },
            _ => failing(m, mismatch_model("Number"@, left, right, line)),
        },
        TokenType::Less | TokenType::Greater | TokenType::LessEqual
        | TokenType::GreaterEqual => match (left, right) {
            (ValueView::Number(a), ValueView::Number(b)) => asking(
                m,
                PendingView::Comparison { operator, left: a, right: b },
            ),
            _ => failing(m, mismatch_model("Number"@, left, right, line)),
        },
        _ => failing(m, ErrorView::ExpectedExpression { line }),
    }
}

/// The pairs of values that have to be equal for two dictionaries to be equal,
/// from the entry at position `from` of the first on: for each entry of the
/// first, its value and the value that the second holds for its key. Nothing
/// where the second has no entry for a key of the first.
pub open spec fn entry_pairs(
    first: Seq<KeyValue<ValueView>>,
    second: Seq<KeyValue<ValueView>>,
    from: int,
) -> Option<Seq<PairView>>
    decreases first.len() - from,
{
    if 0 <= from < first.len() {
        match value_of(second, first[from].key) {
            Some(other) => match entry_pairs(first, second, from + 1) {
                Some(more) => Some(seq![PairView { left: first[from].value, right: other }] + more),
                None => None,
            },
            None => None,
        }
    } else {
        Some(Seq::empty())
    }
}

/// What has to be equal for the two values of `pair` to be equal; nothing where
/// they are unequal whatever else holds. Numbers are equal as numbers. Two
/// arrays are equal when they are the same array, or have as many elements and
/// equal ones at each position. Two dictionaries are equal when they are the
/// same dictionary, or have as many entries and hold equal values for the same
/// keys. All other values are equal when they are the same: values of different
/// types are never equal.
#[verifier::opaque]
pub open spec fn compare_pair_model(heap: HeapView, pair: PairView) -> Option<Seq<PairView>> {
    match (pair.left, pair.right) {
        (ValueView::Number(a), ValueView::Number(b)) => if number::equal(a, b) {
            Some(Seq::empty())
        } else {
            None
        },
        (ValueView::Array(a), ValueView::Array(b)) => if a == b {
            Some(Seq::empty())
        } else if a < heap.arrays.len() && b < heap.arrays.len() && heap.arrays[a as int].len()
            == heap.arrays[b as int].len() {
            Some(
                Seq::new(
                    heap.arrays[a as int].len(),
                    |i: int|
                        PairView {
                            left: heap.arrays[a as int][i],
                            right: heap.arrays[b as int][i],
                        },
                ),
            )
        } else {
            None
        },
        (ValueView::Dictionary(a), ValueView::Dictionary(b)) => if a == b {
            Some(Seq::empty())
        } else if a < heap.dictionaries.len() && b < heap.dictionaries.len()
            && heap.dictionaries[a as int].len() == heap.dictionaries[b as int].len() {
            entry_pairs(heap.dictionaries[a as int], heap.dictionaries[b as int], 0)
        } else {
            None
        },
        (left, right) => if left == right {
            Some(Seq::empty())
        } else {
            None
        },
    }
}

/// Comparing the last of `pairs`. Without pairs left, all were equal. Where the
/// last pair is unequal, the outcome is settled; else what has to be equal for it
/// to be equal is compared after the pairs before it.
#[verifier::opaque]
pub open spec fn compare_model(m: MachineView, pairs: Seq<PairView>, negate: bool) -> Outcome {
    if pairs.len() == 0 {
        going(m, StateView::Return(ValueView::Bool(!negate)))
    } else {
        match compare_pair_model(m.heap, pairs.last()) {
            Some(more) => going(m, StateView::Compare { pairs: pairs.drop_last() + more, negate }),
            None => going(m, StateView::Return(ValueView::Bool(negate))),
        }
    }
}

/// Handing the value of an expression to the frame that waits for it.
#[verifier::opaque]
pub open spec fn deliver_model(m: MachineView, value: ValueView) -> Outcome {
    let rest = popped(m);
    match m.frames.last() {
        FrameView::Discard => going(rest, StateView::Finish),
        FrameView::Print => Outcome {
            machine: MachineView { state: StateView::Finish, ..rest },
            action: ActionView::Print(value),
        },
        FrameView::Define { name } => going(
            MachineView {
                scopes: with_binding(rest.scopes, rest.scope as int, name, value),
                ..rest
            },
            StateView::Finish,
        ),
        FrameView::Branch { then_body, else_body, line } => match value {
            ValueView::Bool(true) => going(rest, StateView::Run(then_body)),
            ValueView::Bool(false) => match else_body {
                Some(other) => going(rest, StateView::Run(other)),
                None => going(rest, StateView::Finish),
            },
            _ => failing(rest, ErrorView::IfConditionNotBoolean { line }),
        },
        FrameView::LoopTest { condition, body, line } => match value {
            ValueView::Bool(true) => pushing(
                rest,
                FrameView::LoopBody { condition, body, line },
                StateView::Run(body),
            ),
            ValueView::Bool(false) => going(rest, StateView::Finish),
            _ => failing(rest, ErrorView::LoopConditionNotBoolean { line }),
        },
        FrameView::ReturnValue { line } => going(
            rest,
            StateView::Unwind(SignalView::Returned { value, line }),
        ),
        FrameView::Unary { operator, line } => match unary_model(operator, value, line) {
            Ok(outcome) => going(rest, StateView::Return(outcome)),
            Err(error) => failing(rest, error),
        },
        FrameView::Logic { operator, right, line } => match value {
            ValueView::Bool(truth) => if (if operator == TokenType::And {
                !truth
            } else {
                truth
            }) {
                going(rest, StateView::Return(ValueView::Bool(truth)))
            } else {
                pushing(rest, FrameView::LogicRight { line }, StateView::Reduce(right))
            },
            _ => failing(rest, expected_model("Bool"@, value, line)),
        },
        FrameView::LogicRight { line } => match value {
            ValueView::Bool(truth) => going(rest, StateView::Return(ValueView::Bool(truth))),
            _ => failing(rest, expected_model("Bool"@, value, line)),
        },
        FrameView::BinaryLeft { operator, right, line } => pushing(
            rest,
            FrameView::BinaryRight { operator, left: value, line },
            StateView::Reduce(right),
        ),
        FrameView::BinaryRight { operator, left, line } => binary_model(
            rest,
            operator,
            left,
            value,
            line,
        ),
        FrameView::AssignVariable { name, line } => {
            let (scopes, result) = assign_model(rest.scopes, rest.scope as int, name, value, line);
            match result {
                Ok(_) => going(MachineView { scopes, ..rest }, StateView::Return(value)),
                Err(error) => failing(rest, error),
            }
        },
        FrameView::AssignValue { array, index, line } => pushing(
            rest,
            FrameView::AssignContainer {
                value,
                index,
                variable: match array.expr_type {
                    ExprTypeView::Variable { name } => Some(name),
                    _ => None,
                },
                line,
            },
            StateView::Reduce(array),
        ),
        FrameView::AssignContainer { value: assigned, index, variable, line } => if is_indexable(
            value,
        ) {
            pushing(
                rest,
                FrameView::AssignIndex { value: assigned, container: value, variable, line },
                StateView::Reduce(index),
            )
        } else {
            failing(rest, ErrorView::NotIndexable { line })
        },
        FrameView::AssignIndex { value: assigned, container, variable, line } => write_model(
            rest,
            container,
            value,
            assigned,
            variable,
            line,
        ),
        FrameView::Callee { arguments, line } => match call_check_model(
            value,
            arguments.len(),
            line,
        ) {
            Ok(_) => next_argument_model(rest, value, Seq::empty(), arguments.reverse(), line),
            Err(error) => failing(rest, error),
        },
        FrameView::Arguments { function, done, rest: more, line } => next_argument_model(
            rest,
            function,
            done.push(value),
            more,
            line,
        ),
        FrameView::ElementContainer { index, line } => if is_indexable(value) {
            pushing(
                rest,
                FrameView::ElementIndex { container: value, line },
                StateView::Reduce(index),
            )
        } else {
            failing(rest, ErrorView::NotIndexable { line })
        },
        FrameView::ElementIndex { container, line } => match read_model(
            rest.heap,
            container,
            value,
            line,
        ) {
            Ok(element) => going(rest, StateView::Return(element)),
            Err(error) => failing(rest, error),
        },
        FrameView::Elements { done, rest: more } => next_element_model(
            rest,
            done.push(value),
            more,
        ),
        FrameView::EntryKey { handle, value: entry, rest: more, line } => match key_model(
            value,
            line,
        ) {
            Ok(_) => pushing(
                rest,
                FrameView::EntryValue { handle, key: value, rest: more, line },
                StateView::Reduce(entry),
            ),
            Err(error) => failing(rest, error),
        },
        FrameView::EntryValue { handle, key, rest: more, line } => {
            let (heap, result) = write_entry_model(rest.heap, handle, key, value, line);
            match result {
                Ok(_) => next_entry_model(MachineView { heap, ..rest }, handle, more, line),
                Err(error) => failing(rest, error),
            }
        },
        _ => going(m, StateView::Return(value)),
    }
}

// The definitions above are opaque, so that a proof sees of them only what it
// asks for.

/// [`run_model`], written out.
pub proof fn unfold_run_model(m: MachineView, statement: StmtView)
    ensures
        run_model(m, statement) == ({
            let line = statement.line;
            match statement.stmt_type {
                StmtTypeView::Expression { expression } => pushing(
                    m,
                    FrameView::Discard,
                    StateView::Reduce(expression),
                ),
                StmtTypeView::Print { expression } => pushing(
                    m,
                    FrameView::Print,
                    StateView::Reduce(expression),
                ),
                StmtTypeView::VarDecl { name, value } => pushing(
                    m,
                    FrameView::Define { name },
                    StateView::Reduce(value),
                ),
                StmtTypeView::Block { body } => pushing(
                    scoped(m, m.scope),
                    FrameView::Block { rest: body.reverse(), outer: m.scope },
                    StateView::Finish,
                ),
                StmtTypeView::If { condition, then_body, else_body } => pushing(
                    m,
                    FrameView::Branch {
                        then_body: *then_body,
                        else_body: match else_body {
                            Some(other) => Some(*other),
                            None => None,
                        },
                        line,
                    },
                    StateView::Reduce(condition),
                ),
                StmtTypeView::While { condition, body } => pushing(
                    m,
                    FrameView::LoopTest { condition, body: *body, line },
                    StateView::Reduce(condition),
                ),
                StmtTypeView::Function { name, parameters, body } => going(
                    MachineView {
                        scopes: with_capture(
                            with_binding(
                                m.scopes,
                                m.scope as int,
                                name,
                                ValueView::Function { parameters, body: *body, closure: m.scope },
                            ),
                            m.scope as int,
                        ),
                        ..m
                    },
                    StateView::Finish,
                ),
                StmtTypeView::Return { expression } => match expression {
                    Some(value) => pushing(m, FrameView::ReturnValue { line }, StateView::Reduce(value)),
                    None => going(
                        m,
                        StateView::Unwind(SignalView::Returned { value: ValueView::Null, line }),
                    ),
                },
                StmtTypeView::Break => going(m, StateView::Unwind(SignalView::Broke { line })),
            }
        }),
{
    reveal(run_model);
}

/// [`finish_model`], written out.
pub proof fn unfold_finish_model(m: MachineView)
    ensures
        finish_model(m) == ({
            let rest = popped(m);
            match m.frames.last() {
                FrameView::Sequence { rest: statements } => if statements.len() > 0 {
                    going(
                        MachineView {
                            frames: rest.frames.push(FrameView::Sequence { rest: statements.drop_last() }),
                            ..rest
                        },
                        StateView::Run(statements.last()),
                    )
                } else {
                    Outcome {
                        machine: MachineView { scope: 0, state: StateView::Idle, ..rest },
                        action: ActionView::Done,
                    }
                },
                FrameView::Block { rest: statements, outer } => if statements.len() > 0 {
                    going(
                        MachineView {
                            frames: rest.frames.push(
                                FrameView::Block { rest: statements.drop_last(), outer },
                            ),
                            ..rest
                        },
                        StateView::Run(statements.last()),
                    )
                } else {
                    going(left(rest, outer), StateView::Finish)
                },
                FrameView::LoopBody { condition, body, line } => pushing(
                    rest,
                    FrameView::LoopTest { condition, body, line },
                    StateView::Reduce(condition),
                ),
                FrameView::Call { outer } => going(left(rest, outer), StateView::Return(ValueView::Null)),
                _ => going(m, StateView::Finish),
            }
        }),
{
    reveal(finish_model);
}

/// [`unwind_model`], written out.
pub proof fn unfold_unwind_model(m: MachineView, signal: SignalView)
    ensures
        unwind_model(m, signal) == ({
            if m.frames.len() == 0 {
                failing(m, thrown_model(signal))
            } else {
                let rest = popped(m);
                match m.frames.last() {
                    FrameView::Sequence { .. } => failing(rest, thrown_model(signal)),
                    FrameView::Block { outer, .. } => going(left(rest, outer), StateView::Unwind(signal)),
                    FrameView::LoopBody { .. } => match signal {
                        SignalView::Broke { .. } => going(rest, StateView::Finish),
                        SignalView::Returned { .. } => going(rest, StateView::Unwind(signal)),
                    },
                    FrameView::Call { outer } => match signal {
                        SignalView::Returned { value, .. } => going(
                            left(rest, outer),
                            StateView::Return(value),
                        ),
                        SignalView::Broke { .. } => going(left(rest, outer), StateView::Unwind(signal)),
                    },
                    _ => going(rest, StateView::Unwind(signal)),
                }
            }
        }),
{
    reveal(unwind_model);
}

/// [`resume_model`], written out.
pub proof fn unfold_resume_model(m: MachineView, pending: PendingView, event: Event)
    ensures
        resume_model(m, pending, event) == ({
            match (pending, event) {
                (PendingView::Numeral { .. }, Event::Number(bits)) => going(
                    m,
                    StateView::Return(ValueView::Number(bits)),
                ),
                (PendingView::Arithmetic { .. }, Event::Number(bits)) => going(
                    m,
                    StateView::Return(ValueView::Number(bits)),
                ),
                (PendingView::Comparison { .. }, Event::Truth(truth)) => going(
                    m,
                    StateView::Return(ValueView::Bool(truth)),
                ),
                _ => asking(m, pending),
            }
        }),
{
    reveal(resume_model);
}

/// [`next_element_model`], written out.
pub proof fn unfold_next_element_model(m: MachineView, done: Seq<ValueView>, rest: Seq<ExprView>)
    ensures
        next_element_model(m, done, rest) == ({
            if rest.len() > 0 {
                pushing(
                    m,
                    FrameView::Elements { done, rest: rest.drop_last() },
                    StateView::Reduce(rest.last()),
                )
            } else {
                going(
                    MachineView {
                        heap: HeapView {
                            arrays: m.heap.arrays.push(done),
                            dictionaries: m.heap.dictionaries,
                        },
                        ..m
                    },
                    StateView::Return(ValueView::Array(m.heap.arrays.len() as usize)),
                )
            }
        }),
{
    reveal(next_element_model);
}

/// [`next_entry_model`], written out.
pub proof fn unfold_next_entry_model(
    m: MachineView,
    handle: usize,
    rest: Seq<KeyValue<ExprView>>,
    line: usize,
)
    ensures
        next_entry_model(m, handle, rest, line) == ({
            if rest.len() > 0 {
                pushing(
                    m,
                    FrameView::EntryKey { handle, value: rest.last().value, rest: rest.drop_last(), line },
                    StateView::Reduce(rest.last().key),
                )
            } else {
                going(m, StateView::Return(ValueView::Dictionary(handle)))
            }
        }),
{
    reveal(next_entry_model);
}

/// [`call_model`], written out.
pub proof fn unfold_call_model(
    m: MachineView,
    function: ValueView,
    arguments: Seq<ValueView>,
    line: usize,
)
    ensures
        call_model(m, function, arguments, line) == ({
            match call_check_model(function, arguments.len(), line) {
                Err(error) => failing(m, error),
                Ok(_) => match function {
                    ValueView::Function { parameters, body, closure } => if closure >= m.scopes.len() {
                        failing(m, ErrorView::CannotCallName { line })
                    } else {
                        let inner = scoped(m, closure);
                        pushing(
                            MachineView {
                                scopes: bound(inner.scopes, inner.scope as int, parameters, arguments, 0),
                                ..inner
                            },
                            FrameView::Call { outer: m.scope },
                            StateView::Run(body),
                        )
                    },
                    _ => failing(m, ErrorView::CannotCallName { line }),
                },
            }
        }),
{
    reveal(call_model);
}

/// [`next_argument_model`], written out.
pub proof fn unfold_next_argument_model(
    m: MachineView,
    function: ValueView,
    done: Seq<ValueView>,
    rest: Seq<ExprView>,
    line: usize,
)
    ensures
        next_argument_model(m, function, done, rest, line) == ({
            if rest.len() > 0 {
                pushing(
                    m,
                    FrameView::Arguments { function, done, rest: rest.drop_last(), line },
                    StateView::Reduce(rest.last()),
                )
            } else {
                call_model(m, function, done, line)
            }
        }),
{
    reveal(next_argument_model);
}

/// [`reduce_model`], written out.
pub proof fn unfold_reduce_model(m: MachineView, expression: ExprView)
    ensures
        reduce_model(m, expression) == ({
            let line = expression.line;
            match expression.expr_type {
                ExprTypeView::Literal { value } => match value {
                    LiteralView::Number(text) => asking(m, PendingView::Numeral { text }),
                    LiteralView::Bool(truth) => going(m, StateView::Return(ValueView::Bool(truth))),
                    LiteralView::String_(text) => going(m, StateView::Return(ValueView::String_(text))),
                    LiteralView::Null => going(m, StateView::Return(ValueView::Null)),
                },
                ExprTypeView::Grouping { expression } => going(m, StateView::Reduce(*expression)),
                ExprTypeView::Unary { operator, right } => pushing(
                    m,
                    FrameView::Unary { operator: operator.type_, line },
                    StateView::Reduce(*right),
                ),
                ExprTypeView::Binary { left, operator, right } => if operator.type_ == TokenType::And
                    || operator.type_ == TokenType::Or {
                    pushing(
                        m,
                        FrameView::Logic { operator: operator.type_, right: *right, line },
                        StateView::Reduce(*left),
                    )
                } else {
                    pushing(
                        m,
                        FrameView::BinaryLeft { operator: operator.type_, right: *right, line },
                        StateView::Reduce(*left),
                    )
                },
                ExprTypeView::Assignment { target, value } => match target.expr_type {
                    ExprTypeView::Variable { name } => pushing(
                        m,
                        FrameView::AssignVariable { name, line },
                        StateView::Reduce(*value),
                    ),
                    ExprTypeView::Element { array, index } => pushing(
                        m,
                        FrameView::AssignValue { array: *array, index: *index, line },
                        StateView::Reduce(*value),
                    ),
                    _ => failing(m, ErrorView::InvalidAssignmentTarget { line }),
                },
                ExprTypeView::Variable { name } => match get_model(m.scopes, m.scope as int, name, line) {
                    Ok(value) => going(m, StateView::Return(value)),
                    Err(error) => failing(m, error),
                },
                ExprTypeView::Call { callee, arguments } => pushing(
                    m,
                    FrameView::Callee { arguments, line },
                    StateView::Reduce(*callee),
                ),
                ExprTypeView::Element { array, index } => pushing(
                    m,
                    FrameView::ElementContainer { index: *index, line },
                    StateView::Reduce(*array),
                ),
                ExprTypeView::Array { elements } => next_element_model(
                    m,
                    Seq::empty(),
                    elements.reverse(),
                ),
                ExprTypeView::Dictionary { elements } => next_entry_model(
                    MachineView {
                        heap: HeapView {
                            arrays: m.heap.arrays,
                            dictionaries: m.heap.dictionaries.push(Seq::empty()),
                        },
                        ..m
                    },
                    m.heap.dictionaries.len() as usize,
                    elements.reverse(),
                    line,
                ),
            }
        }),
{
    reveal(reduce_model);
}

/// [`read_model`], written out.
pub proof fn unfold_read_model(heap: HeapView, container: ValueView, index: ValueView, line: usize)
    ensures
        read_model(heap, container, index, line) == ({
            match container {
                ValueView::Array(handle) => if handle < heap.arrays.len() {
                    read_array_model(heap, handle as int, index, line)
                } else {
                    Err(ErrorView::NotIndexable { line })
                },
                ValueView::String_(text) => read_string_model(text, index, line),
                ValueView::Dictionary(handle) => if handle < heap.dictionaries.len() {
                    read_dictionary_model(heap, handle as int, index, line)
                } else {
                    Err(ErrorView::NotIndexable { line })
                },
                _ => Err(ErrorView::NotIndexable { line }),
            }
        }),
{
    reveal(read_model);
}

/// [`write_model`], written out.
pub proof fn unfold_write_model(
    m: MachineView,
    container: ValueView,
    index: ValueView,
    assigned: ValueView,
    variable: Option<Seq<char>>,
    line: usize,
)
    ensures
        write_model(m, container, index, assigned, variable, line) == ({
            let written: (MachineView, Result<(), ErrorView>) = match container {
                ValueView::Array(handle) => {
                    let (heap, result) = write_element_model(m.heap, handle, index, assigned, line);
                    (MachineView { heap, ..m }, result)
                },
                ValueView::String_(text) => match write_string_model(text, index, assigned, line) {
                    Ok(changed) => match variable {
                        Some(name) => {
                            let (scopes, result) = assign_model(
                                m.scopes,
                                m.scope as int,
                                name,
                                ValueView::String_(changed),
                                line,
                            );
                            (MachineView { scopes, ..m }, result)
                        },
                        None => (m, Ok(())),
                    },
                    Err(error) => (m, Err(error)),
                },
                ValueView::Dictionary(handle) => {
                    let (heap, result) = write_entry_model(m.heap, handle, index, assigned, line);
                    (MachineView { heap, ..m }, result)
                },
                _ => (m, Err(ErrorView::NotIndexable { line })),
            };
            match written.1 {
                Ok(_) => going(written.0, StateView::Return(assigned)),
                Err(error) => failing(written.0, error),
            }
        }),
{
    reveal(write_model);
}

/// [`binary_model`], written out.
pub proof fn unfold_binary_model(
    m: MachineView,
    operator: TokenType,
    left: ValueView,
    right: ValueView,
    line: usize,
)
    ensures
        binary_model(m, operator, left, right, line) == ({
            match operator {
                TokenType::EqualEqual | TokenType::BangEqual => going(
                    m,
                    StateView::Compare {
                        pairs: seq![PairView { left, right }],
                        negate: operator == TokenType::BangEqual,
                    },
                ),
                TokenType::Plus => match (left, right) {
                    (ValueView::Number(a), ValueView::Number(b)) => asking(
                        m,
                        PendingView::Arithmetic { operator, left: a, right: b },
                    ),
                    (ValueView::String_(a), ValueView::String_(b)) => going(
                        m,
                        StateView::Return(ValueView::String_(a + b)),
                    ),
                    _ => failing(m, mismatch_model("Number or String"@, left, right, line)),
                },
                TokenType::Minus | TokenType::Star => match (left, right) {
                    (ValueView::Number(a), ValueView::Number(b)) => asking(
                        m,
                        PendingView::Arithmetic { operator, left: a, right: b },
                    ),
                    _ => failing(m, mismatch_model("Number"@, left, right, line)),
                },
                TokenType::Slash | TokenType::Percent => match (left, right) {
                    (ValueView::Number(a), ValueView::Number(b)) => if number::is_zero(b) {
                        failing(m, ErrorView::DivideByZero { line })
                    } else {
                        asking(m, PendingView::Arithmetic { operator, left: a, right: b })
                    },
                    _ => failing(m, mismatch_model("Number"@, left, right, line)),
                },
                TokenType::Less | TokenType::Greater | TokenType::LessEqual
                | TokenType::GreaterEqual => match (left, right) {
                    (ValueView::Number(a), ValueView::Number(b)) => asking(
                        m,
                        PendingView::Comparison { operator, left: a, right: b },
                    ),
                    _ => failing(m, mismatch_model("Number"@, left, right, line)),
                },
                _ => failing(m, ErrorView::ExpectedExpression { line }),
            }
        }),
{
    reveal(binary_model);
}

/// [`compare_pair_model`], written out.
pub proof fn unfold_compare_pair_model(heap: HeapView, pair: PairView)
    ensures
        compare_pair_model(heap, pair) == ({
            match (pair.left, pair.right) {
                (ValueView::Number(a), ValueView::Number(b)) => if number::equal(a, b) {
                    Some(Seq::empty())
                } else {
                    None
                },
                (ValueView::Array(a), ValueView::Array(b)) => if a == b {
                    Some(Seq::empty())
                } else if a < heap.arrays.len() && b < heap.arrays.len() && heap.arrays[a as int].len()
                    == heap.arrays[b as int].len() {
                    Some(
                        Seq::new(
                            heap.arrays[a as int].len(),
                            |i: int|
                                PairView {
                                    left: heap.arrays[a as int][i],
                                    right: heap.arrays[b as int][i],
                                },
                        ),
                    )
                } else {
                    None
                },
                (ValueView::Dictionary(a), ValueView::Dictionary(b)) => if a == b {
                    Some(Seq::empty())
                } else if a < heap.dictionaries.len() && b < heap.dictionaries.len()
                    && heap.dictionaries[a as int].len() == heap.dictionaries[b as int].len() {
                    entry_pairs(heap.dictionaries[a as int], heap.dictionaries[b as int], 0)
                } else {
                    None
                },
                (left, right) => if left == right {
                    Some(Seq::empty())
                } else {
                    None
                },
            }
        }),
{
    reveal(compare_pair_model);
}

/// [`compare_model`], written out.
pub proof fn unfold_compare_model(m: MachineView, pairs: Seq<PairView>, negate: bool)
    ensures
        compare_model(m, pairs, negate) == ({
            if pairs.len() == 0 {
                going(m, StateView::Return(ValueView::Bool(!negate)))
            } else {
                match compare_pair_model(m.heap, pairs.last()) {
                    Some(more) => going(m, StateView::Compare { pairs: pairs.drop_last() + more, negate }),
                    None => going(m, StateView::Return(ValueView::Bool(negate))),
                }
            }
        }),
{
    reveal(compare_model);
}

/// [`deliver_model`], written out.
pub proof fn unfold_deliver_model(m: MachineView, value: ValueView)
    ensures
        deliver_model(m, value) == ({
            let rest = popped(m);
            match m.frames.last() {
                FrameView::Discard => going(rest, StateView::Finish),
                FrameView::Print => Outcome {
                    machine: MachineView { state: StateView::Finish, ..rest },
                    action: ActionView::Print(value),
                },
                FrameView::Define { name } => going(
                    MachineView {
                        scopes: with_binding(rest.scopes, rest.scope as int, name, value),
                        ..rest
                    },
                    StateView::Finish,
                ),
                FrameView::Branch { then_body, else_body, line } => match value {
                    ValueView::Bool(true) => going(rest, StateView::Run(then_body)),
                    ValueView::Bool(false) => match else_body {
                        Some(other) => going(rest, StateView::Run(other)),
                        None => going(rest, StateView::Finish),
                    },
                    _ => failing(rest, ErrorView::IfConditionNotBoolean { line }),
                },
                FrameView::LoopTest { condition, body, line } => match value {
                    ValueView::Bool(true) => pushing(
                        rest,
                        FrameView::LoopBody { condition, body, line },
                        StateView::Run(body),
                    ),
                    ValueView::Bool(false) => going(rest, StateView::Finish),
                    _ => failing(rest, ErrorView::LoopConditionNotBoolean { line }),
                },
                FrameView::ReturnValue { line } => going(
                    rest,
                    StateView::Unwind(SignalView::Returned { value, line }),
                ),
                FrameView::Unary { operator, line } => match unary_model(operator, value, line) {
                    Ok(outcome) => going(rest, StateView::Return(outcome)),
                    Err(error) => failing(rest, error),
                },
                FrameView::Logic { operator, right, line } => match value {
                    ValueView::Bool(truth) => if (if operator == TokenType::And {
                        !truth
                    } else {
                        truth
                    }) {
                        going(rest, StateView::Return(ValueView::Bool(truth)))
                    } else {
                        pushing(rest, FrameView::LogicRight { line }, StateView::Reduce(right))
                    },
                    _ => failing(rest, expected_model("Bool"@, value, line)),
                },
                FrameView::LogicRight { line } => match value {
                    ValueView::Bool(truth) => going(rest, StateView::Return(ValueView::Bool(truth))),
                    _ => failing(rest, expected_model("Bool"@, value, line)),
                },
                FrameView::BinaryLeft { operator, right, line } => pushing(
                    rest,
                    FrameView::BinaryRight { operator, left: value, line },
                    StateView::Reduce(right),
                ),
                FrameView::BinaryRight { operator, left, line } => binary_model(
                    rest,
                    operator,
                    left,
                    value,
                    line,
                ),
                FrameView::AssignVariable { name, line } => {
                    let (scopes, result) = assign_model(rest.scopes, rest.scope as int, name, value, line);
                    match result {
                        Ok(_) => going(MachineView { scopes, ..rest }, StateView::Return(value)),
                        Err(error) => failing(rest, error),
                    }
                },
                FrameView::AssignValue { array, index, line } => pushing(
                    rest,
                    FrameView::AssignContainer {
                        value,
                        index,
                        variable: match array.expr_type {
                            ExprTypeView::Variable { name } => Some(name),
                            _ => None,
                        },
                        line,
                    },
                    StateView::Reduce(array),
                ),
                FrameView::AssignContainer { value: assigned, index, variable, line } => if is_indexable(
                    value,
                ) {
                    pushing(
                        rest,
                        FrameView::AssignIndex { value: assigned, container: value, variable, line },
                        StateView::Reduce(index),
                    )
                } else {
                    failing(rest, ErrorView::NotIndexable { line })
                },
                FrameView::AssignIndex { value: assigned, container, variable, line } => write_model(
                    rest,
                    container,
                    value,
                    assigned,
                    variable,
                    line,
                ),
                FrameView::Callee { arguments, line } => match call_check_model(
                    value,
                    arguments.len(),
                    line,
                ) {
                    Ok(_) => next_argument_model(rest, value, Seq::empty(), arguments.reverse(), line),
                    Err(error) => failing(rest, error),
                },
                FrameView::Arguments { function, done, rest: more, line } => next_argument_model(
                    rest,
                    function,
                    done.push(value),
                    more,
                    line,
                ),
                FrameView::ElementContainer { index, line } => if is_indexable(value) {
                    pushing(
                        rest,
                        FrameView::ElementIndex { container: value, line },
                        StateView::Reduce(index),
                    )
                } else {
                    failing(rest, ErrorView::NotIndexable { line })
                },
                FrameView::ElementIndex { container, line } => match read_model(
                    rest.heap,
                    container,
                    value,
                    line,
                ) {
                    Ok(element) => going(rest, StateView::Return(element)),
                    Err(error) => failing(rest, error),
                },
                FrameView::Elements { done, rest: more } => next_element_model(
                    rest,
                    done.push(value),
                    more,
                ),
                FrameView::EntryKey { handle, value: entry, rest: more, line } => match key_model(
                    value,
                    line,
                ) {
                    Ok(_) => pushing(
                        rest,
                        FrameView::EntryValue { handle, key: value, rest: more, line },
                        StateView::Reduce(entry),
                    ),
                    Err(error) => failing(rest, error),
                },
                FrameView::EntryValue { handle, key, rest: more, line } => {
                    let (heap, result) = write_entry_model(rest.heap, handle, key, value, line);
                    match result {
                        Ok(_) => next_entry_model(MachineView { heap, ..rest }, handle, more, line),
                        Err(error) => failing(rest, error),
                    }
                },
                _ => going(m, StateView::Return(value)),
            }
        }),
{
    reveal(deliver_model);
}

/// Binding the parameters changes nothing but the bindings of `scope`.
pub proof fn lemma_bound_frame(
    scopes: Seq<ScopeView>,
    scope: int,
    names: Seq<Seq<char>>,
    values: Seq<ValueView>,
    from: int,
    other: int,
)
    requires
        0 <= scope < scopes.len(),
        0 <= from <= names.len(),
        0 <= other < scopes.len(),
    ensures
        bound(scopes, scope, names, values, from).len() == scopes.len(),
        other != scope ==> bound(scopes, scope, names, values, from)[other] == scopes[other],
        bound(scopes, scope, names, values, from)[scope].parent == scopes[scope].parent,
        bound(scopes, scope, names, values, from)[scope].captured == scopes[scope].captured,
    decreases names.len() - from,
{
    if from < names.len() {
        let next = with_binding(scopes, scope, names[from], values[from]);
        lemma_bound_frame(next, scope, names, values, from + 1, other);
    }
}

/// Binding the parameters from `from` on leaves a name that is none of them
/// bound as it was.
pub proof fn lemma_bound_other(
    scopes: Seq<ScopeView>,
    scope: int,
    names: Seq<Seq<char>>,
    values: Seq<ValueView>,
    from: int,
    name: Seq<char>,
)
    requires
        0 <= scope < scopes.len(),
        0 <= from <= names.len(),
        forall|j: int| from <= j < names.len() ==> names[j] != name,
    ensures
        bound(scopes, scope, names, values, from)[scope].bindings.contains_key(name)
            == scopes[scope].bindings.contains_key(name),
        bound(scopes, scope, names, values, from)[scope].bindings[name]
            == scopes[scope].bindings[name],
    decreases names.len() - from,
{
    if from < names.len() {
        let next = with_binding(scopes, scope, names[from], values[from]);
        assert(names[from] != name);
        lemma_bound_other(next, scope, names, values, from + 1, name);
    }
}

/// Binding the parameters from `from` on gives the parameter at position `i`,
/// which no later parameter repeats, the value at that position.
pub proof fn lemma_bound_parameter(
    scopes: Seq<ScopeView>,
    scope: int,
    names: Seq<Seq<char>>,
    values: Seq<ValueView>,
    from: int,
    i: int,
)
    requires
        0 <= scope < scopes.len(),
        0 <= from <= i < names.len(),
        forall|j: int| i < j < names.len() ==> names[j] != names[i],
    ensures
        bound(scopes, scope, names, values, from)[scope].bindings.contains_key(names[i]),
        bound(scopes, scope, names, values, from)[scope].bindings[names[i]] == values[i],
    decreases names.len() - from,
{
    let next = with_binding(scopes, scope, names[from], values[from]);
    if from < i {
        lemma_bound_parameter(next, scope, names, values, from + 1, i);
    } else {
        lemma_bound_other(next, scope, names, values, from + 1, names[i]);
    }
}

/// A call of a function with as many arguments as it has parameters succeeds:
/// the body runs next, in a new scope under the scope that the function was
/// declared in, not under that of the caller; there each parameter that no later
/// parameter repeats has the argument at its position, and every other name is
/// seen as the function's own scope sees it; the scopes that were there are as
/// they were; and a frame waits for the body, to go back to the caller's scope.
/// With another number of arguments the call fails and reports both numbers;
/// what is no function cannot be called.
pub proof fn lemma_call(m: MachineView, function: ValueView, arguments: Seq<ValueView>, line: usize)
    requires
        m.scopes.len() <= usize::MAX,
        arguments.len() <= usize::MAX,
    ensures
        match function {
            ValueView::Function { parameters, body, closure } => if parameters.len()
                != arguments.len() {
                call_model(m, function, arguments, line) == failing(
                    m,
                    ErrorView::ArgParamNumberMismatch {
                        arg_number: arguments.len() as usize,
                        param_number: parameters.len() as usize,
                        line,
                    },
                )
            } else if closure < m.scopes.len() {
                let after = call_model(m, function, arguments, line).machine;
                let inner = m.scopes.len() as int;
                &&& call_model(m, function, arguments, line).action == ActionView::Continue
                &&& after.state == StateView::Run(body)
                &&& after.frames == m.frames.push(FrameView::Call { outer: m.scope })
                &&& after.heap == m.heap
                &&& after.scope == inner
                &&& after.scopes.len() == inner + 1
                &&& after.scopes[inner].parent == Some(closure)
                &&& forall|j: int| 0 <= j < inner ==> after.scopes[j] == m.scopes[j]
                &&& forall|i: int|
                    0 <= i < parameters.len() && (forall|j: int|
                        i < j < parameters.len() ==> parameters[j] != parameters[i]) ==> lookup(
                        after.scopes,
                        inner,
                        #[trigger] parameters[i],
                    ) == Some(arguments[i])
                &&& forall|name: Seq<char>|
                    (forall|j: int| 0 <= j < parameters.len() ==> parameters[j] != name)
                        ==> #[trigger] lookup(after.scopes, inner, name) == lookup(
                        m.scopes,
                        closure as int,
                        name,
                    )
            } else {
                call_model(m, function, arguments, line) == failing(
                    m,
                    ErrorView::CannotCallName { line },
                )
            },
            _ => call_model(m, function, arguments, line) == failing(
                m,
                ErrorView::CannotCallName { line },
            ),
        },
{
    unfold_call_model(m, function, arguments, line);
    match function {
        ValueView::Function { parameters, body, closure } => {
            if parameters.len() == arguments.len() && closure < m.scopes.len() {
                let entered = scoped(m, closure);
                let inner = m.scopes.len() as int;
                let scopes = bound(entered.scopes, inner, parameters, arguments, 0);
                assert(call_model(m, function, arguments, line).machine.scopes == scopes);
                lemma_bound_frame(entered.scopes, inner, parameters, arguments, 0, inner);
                assert forall|j: int| 0 <= j < inner implies scopes[j] == m.scopes[j] by {
                    lemma_bound_frame(entered.scopes, inner, parameters, arguments, 0, j);
                    assert(entered.scopes[j] == m.scopes[j]);
                }
                assert forall|i: int|
                    0 <= i < parameters.len() && (forall|j: int|
                        i < j < parameters.len() ==> parameters[j] != parameters[i])
                    implies lookup(scopes, inner, #[trigger] parameters[i]) == Some(
                    arguments[i],
                ) by {
                    lemma_bound_parameter(entered.scopes, inner, parameters, arguments, 0, i);
                }
                assert forall|name: Seq<char>|
                    (forall|j: int| 0 <= j < parameters.len() ==> parameters[j] != name)
                    implies #[trigger] lookup(scopes, inner, name) == lookup(
                    m.scopes,
                    closure as int,
                    name,
                ) by {
                    lemma_bound_other(entered.scopes, inner, parameters, arguments, 0, name);
                    assert(!entered.scopes[inner].bindings.contains_key(name));
                    lemma_same_below(m.scopes, scopes, closure as int, name);
                }
            }
        },
        _ => {},
    }
}

/// Scopes that are added or changed later do not change what is found from the
/// scopes before them.
pub proof fn lemma_same_below(
    scopes: Seq<ScopeView>,
    more: Seq<ScopeView>,
    scope: int,
    name: Seq<char>,
)
    requires
        0 <= scope < scopes.len() <= more.len(),
        forall|j: int| 0 <= j <= scope ==> more[j] == scopes[j],
    ensures
        lookup(more, scope, name) == lookup(scopes, scope, name),
        resolve(more, scope, name) == resolve(scopes, scope, name),
    decreases scope,
{
    if !scopes[scope].bindings.contains_key(name) {
        match scopes[scope].parent {
            Some(parent) => {
                if parent < scope {
                    lemma_same_below(scopes, more, parent as int, name);
                }
            },
            None => {},
        }
    }
}

/// Writing to a dictionary and reading from it: an assignment to the element of
/// a dictionary at a key succeeds, whether the dictionary held the key or not,
/// and has the assigned value; after it, reading the element at every key equal
/// to that key gives the assigned value, and reading at every key not equal to
/// it gives what it gave before.
pub proof fn lemma_dictionary_round_trip(
    m: MachineView,
    handle: usize,
    key: ValueView,
    value: ValueView,
    second: ValueView,
    variable: Option<Seq<char>>,
    line: usize,
    at: usize,
)
    requires
        handle < m.heap.dictionaries.len(),
        is_key(key),
    ensures
        ({
            let written = write_model(m, ValueView::Dictionary(handle), key, value, variable, line);
            let before = read_model(m.heap, ValueView::Dictionary(handle), second, at);
            let after = read_model(written.machine.heap, ValueView::Dictionary(handle), second, at);
            &&& written == going(
                MachineView { heap: written.machine.heap, ..m },
                StateView::Return(value),
            )
            &&& keys_equal(key, second) ==> after == Ok::<ValueView, ErrorView>(value)
            &&& is_key(second) && !keys_equal(key, second) ==> after == before
        }),
{
    unfold_write_model(m, ValueView::Dictionary(handle), key, value, variable, line);
    let written = write_model(m, ValueView::Dictionary(handle), key, value, variable, line);
    unfold_read_model(m.heap, ValueView::Dictionary(handle), second, at);
    unfold_read_model(written.machine.heap, ValueView::Dictionary(handle), second, at);
    lemma_key_round_trip(m.heap, handle as int, key, value, second, line);
    lemma_key_round_trip(m.heap, handle as int, key, value, second, at);
}

/// How a call ends: a `return` that reaches the frame of the call gives the call
/// its value, and a body that ends without one gives it null; either way the
/// scope of the call is left for the scope of the caller.
pub proof fn lemma_call_ends(m: MachineView, value: ValueView, line: usize)
    requires
        m.frames.len() > 0,
        m.frames.last() is Call,
    ensures
        unwind_model(m, SignalView::Returned { value, line }) == going(
            left(popped(m), m.frames.last()->Call_outer),
            StateView::Return(value),
        ),
        finish_model(m) == going(
            left(popped(m), m.frames.last()->Call_outer),
            StateView::Return(ValueView::Null),
        ),
{
    unfold_unwind_model(m, SignalView::Returned { value, line });
    unfold_finish_model(m);
}

/// How loops and signals meet: a `break` that reaches the frame of a loop ends
/// that loop and goes no further; a `return` goes on through it; and a `break`
/// goes on through blocks, leaving each for the scope around it.
pub proof fn lemma_loop_ends(m: MachineView, line: usize, value: ValueView)
    requires
        m.frames.len() > 0,
    ensures
        m.frames.last() is LoopBody ==> unwind_model(m, SignalView::Broke { line }) == going(
            popped(m),
            StateView::Finish,
        ),
        m.frames.last() is LoopBody ==> unwind_model(m, SignalView::Returned { value, line })
            == going(popped(m), StateView::Unwind(SignalView::Returned { value, line })),
        m.frames.last() is Block ==> unwind_model(m, SignalView::Broke { line }) == going(
            left(popped(m), m.frames.last()->Block_outer),
            StateView::Unwind(SignalView::Broke { line }),
        ),
{
    unfold_unwind_model(m, SignalView::Broke { line });
    unfold_unwind_model(m, SignalView::Returned { value, line });
}

/// The machine while it takes a step: its state is taken out.
pub open spec fn stepping(m: MachineView) -> MachineView {
    MachineView { state: StateView::Idle, ..m }
}

/// One step of the machine: what it makes of the machine `m` and the answer
/// `event` of the caller.
pub open spec fn next(m: MachineView, event: Event) -> Outcome {
    match m.state {
        StateView::Idle => Outcome { machine: m, action: ActionView::Done },
        StateView::Run(statement) => run_model(stepping(m), statement),
        StateView::Finish => finish_model(stepping(m)),
        StateView::Reduce(expression) => reduce_model(stepping(m), expression),
        StateView::Return(value) => deliver_model(stepping(m), value),
        StateView::Unwind(signal) => unwind_model(stepping(m), signal),
        StateView::Await(pending) => resume_model(stepping(m), pending, event),
        StateView::Compare { pairs, negate } => compare_model(stepping(m), pairs, negate),
    }
}

} // verus!
