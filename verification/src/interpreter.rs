//! The interpreter: a machine that runs statements one step at a time.
//!
//! The machine never computes with numbers and never prints. Where a program
//! needs a sum or a comparison of two numbers, the number that a numeral denotes,
//! or a line printed, [`Interpreter::step`] hands that out as an [`Action`]; the
//! caller does it and answers with an [`Event`] on the next step. A program that
//! runs for ever is a run of steps without end: every single step ends.

use vstd::prelude::*;
use vstd::string::StringExecFns;
use crate::environment::{
    assign_model, get_model, global_scope, settled, with_binding, with_capture, Environment,
};
use crate::error::{error_view, result_view, ErrorType};
use crate::expr::{
    expr_views, lemma_array_view, lemma_call_view, lemma_dictionary_view, pair_views, Expr,
    ExprType, KeyValue,
};
use crate::grammar::{program, Cursor};
use crate::heap::{
    check_key, kind_name, read_string, value_views, write_string, Heap, HeapView,
};
use crate::machine::{
    asking, binary_model, bound, call_check_model, call_model, compare_model,
    compare_pair_model, deliver_model, entry_pairs, expected_model, failing, finish_model,
    frame_views, going, is_indexable, left, mismatch_model, next, next_argument_model,
    next_element_model, next_entry_model, pair_of_views, popped, pushing, read_model,
    reduce_model, resume_model, run_model, scoped, stepping, thrown_model, unary_model,
    unwind_model, write_element_model, write_entry_model, write_model, ActionView, FrameView,
    MachineView, Outcome, PairView, StateView,
};
use crate::number;
use crate::parser::Parser;
use crate::render::{piece_views, render, rendered, Piece};
use crate::stmt::{lemma_block_view, same_names, same_stmt, stmt_views, Stmt, StmtType};
use crate::token::{Literal, TokenType};
use crate::tokenizer::{lex, Tokenizer};
use crate::value::Value;

verus! {

/// What leaves a statement before its end.
pub enum Signal {
    /// A `break`, on its way to the nearest loop around it.
    Broke { line: usize },
    /// A `return`, on its way to the nearest call around it.
    Returned { value: Value, line: usize },
}

/// What the machine has asked of its caller and waits for.
pub enum Pending {
    /// The number that a numeral denotes.
    Numeral { text: String },
    /// The outcome of an operator of arithmetic on two numbers.
    Arithmetic { operator: TokenType, left: u64, right: u64 },
    /// The outcome of an operator of comparison on two numbers.
    Comparison { operator: TokenType, left: u64, right: u64 },
}

/// What a step asks of the caller.
pub enum Action {
    /// Nothing: take the next step.
    Continue,
    /// Print this value on a line of its own, then take the next step.
    Print(Value),
    /// Answer the next step with the number that this numeral denotes.
    Numeral(String),
    /// Answer the next step with the number that `operator` gives of `left` and
    /// `right`: one of `+`, `-`, `*`, `/` and `%`.
    Arithmetic { operator: TokenType, left: u64, right: u64 },
    /// Answer the next step with the truth of `left operator right`: the operator
    /// is one of `<`, `>`, `<=` and `>=`.
    Comparison { operator: TokenType, left: u64, right: u64 },
    /// The statements that were loaded have all been run.
    Done,
    /// The statements that were loaded were given up with this error.
    Failed(ErrorType),
}

/// What the caller answers a step with.
pub enum Event {
    /// Nothing was asked.
    Nothing,
    /// The number that was asked for.
    Number(u64),
    /// The truth that was asked for.
    Truth(bool),
}

/// Two values that are to be compared.
pub struct Pair {
    pub left: Value,
    pub right: Value,
}

/// What the machine does next.
pub enum State {
    /// Nothing: no statements are loaded.
    Idle,
    /// Run this statement.
    Run(Stmt),
    /// A statement has ended: go on with what comes after it.
    Finish,
    /// Evaluate this expression.
    Reduce(Expr),
    /// An expression has this value: hand it to what waits for it.
    Return(Value),
    /// Carry this signal outwards.
    Unwind(Signal),
    /// Wait for an answer of the caller.
    Await(Pending),
    /// Compare these pairs; the outcome is whether all are equal, or the opposite
    /// where `negate` is set.
    Compare { pairs: Vec<Pair>, negate: bool },
}

/// What waits for a statement to end or for an expression to have its value.
/// Lists of what is still to do are kept in reverse: the next item is the last.
#[allow(inconsistent_fields)]
pub enum Frame {
    /// The statements that were loaded and are still to run.
    Sequence { rest: Vec<Stmt> },
    /// The statements of a block that are still to run, and the scope to go back
    /// to after them.
    Block { rest: Vec<Stmt>, outer: usize },
    /// An expression statement waits for its value, to drop it.
    Discard,
    /// A `print` statement waits for the value to print.
    Print,
    /// A variable declaration waits for the value of the variable.
    Define { name: String },
    /// An `if` statement waits for its condition.
    Branch { then_body: Stmt, else_body: Option<Stmt>, line: usize },
    /// A `while` loop waits for its condition.
    LoopTest { condition: Expr, body: Stmt, line: usize },
    /// A `while` loop waits for its body to end.
    LoopBody { condition: Expr, body: Stmt, line: usize },
    /// A `return` statement waits for the value to return.
    ReturnValue { line: usize },
    /// A unary operator waits for its operand.
    Unary { operator: TokenType, line: usize },
    /// `and` or `or` waits for its left side.
    Logic { operator: TokenType, right: Expr, line: usize },
    /// `and` or `or` waits for its right side.
    LogicRight { line: usize },
    /// A binary operator waits for its left side.
    BinaryLeft { operator: TokenType, right: Expr, line: usize },
    /// A binary operator waits for its right side.
    BinaryRight { operator: TokenType, left: Value, line: usize },
    /// An assignment to a variable waits for the value.
    AssignVariable { name: String, line: usize },
    /// An assignment to an element waits for the value.
    AssignValue { array: Expr, index: Expr, line: usize },
    /// An assignment to an element waits for the container. Where the container
    /// is a variable, `variable` is its name.
    AssignContainer { value: Value, index: Expr, variable: Option<String>, line: usize },
    /// An assignment to an element waits for the index.
    AssignIndex { value: Value, container: Value, variable: Option<String>, line: usize },
    /// A call waits for the value that is called.
    Callee { arguments: Vec<Expr>, line: usize },
    /// A call waits for the next of its arguments.
    Arguments { function: Value, done: Vec<Value>, rest: Vec<Expr>, line: usize },
    /// A call waits for the body of the function to end; `outer` is the scope of
    /// the caller.
    Call { outer: usize },
    /// An element expression waits for the container.
    ElementContainer { index: Expr, line: usize },
    /// An element expression waits for the index.
    ElementIndex { container: Value, line: usize },
    /// An array literal waits for the next of its elements.
    Elements { done: Vec<Value>, rest: Vec<Expr> },
    /// A dictionary literal waits for the key of its next entry.
    EntryKey { handle: usize, value: Expr, rest: Vec<KeyValue<Expr>>, line: usize },
    /// A dictionary literal waits for the value of its next entry.
    EntryValue { handle: usize, key: Value, rest: Vec<KeyValue<Expr>>, line: usize },
}

/// What a frame waits for, and what a state or a frame ends in: the value of an
/// expression, or the end of a statement.
#[derive(PartialEq, Eq, Structural)]
pub enum Sort {
    Value,
    End,
}

/// What a frame waits for.
pub open spec fn takes(frame: Frame) -> Sort {
    match frame {
        Frame::Sequence { .. } | Frame::Block { .. } | Frame::LoopBody { .. } | Frame::Call {
            ..
        } => Sort::End,
        _ => Sort::Value,
    }
}

/// What a frame ends in, once it has what it waits for.
pub open spec fn gives(frame: Frame) -> Sort {
    match frame {
        Frame::Sequence { .. } | Frame::Block { .. } | Frame::LoopBody { .. } | Frame::Discard
        | Frame::Print | Frame::Define { .. } | Frame::Branch { .. } | Frame::LoopTest { .. }
        | Frame::ReturnValue { .. } => Sort::End,
        _ => Sort::Value,
    }
}

/// The scope that a frame goes back to, if it goes back to one.
pub open spec fn outer_of(frame: Frame) -> Option<usize> {
    match frame {
        Frame::Block { outer, .. } => Some(outer),
        Frame::Call { outer } => Some(outer),
        _ => None,
    }
}

/// The scopes that the frames go back to stand in the order of the frames, and
/// all before `limit`: a frame goes back to a scope that was there before the
/// scope that was entered with it.
pub open spec fn ordered(frames: Seq<Frame>, limit: int) -> bool
    decreases frames.len(),
{
    if frames.len() == 0 {
        true
    } else {
        match outer_of(frames.last()) {
            Some(outer) => outer < limit && ordered(frames.drop_last(), outer as int),
            None => ordered(frames.drop_last(), limit),
        }
    }
}

/// The frame at position `i` is in order: it is the frame of the statements that
/// were loaded if and only if it is the lowest; it ends in what the frame below it
/// waits for; and the dictionary that it holds exists among `dictionaries`
/// dictionaries.
pub open spec fn placed(frames: Seq<Frame>, i: int, dictionaries: nat) -> bool {
    &&& frames[i] is Sequence <==> i == 0
    &&& i > 0 ==> gives(frames[i]) == takes(frames[i - 1])
    &&& grounded(frames[i], dictionaries)
}

/// The frames are in order: each is, as [`placed`] says.
#[verifier::opaque]
pub open spec fn stacked(frames: Seq<Frame>, dictionaries: nat) -> bool {
    forall|i: int| 0 <= i < frames.len() ==> #[trigger] placed(frames, i, dictionaries)
}

/// What the top frame waits for, if there is a frame.
pub open spec fn top_of(frames: Seq<Frame>) -> Option<Sort> {
    if frames.len() > 0 {
        Some(takes(frames.last()))
    } else {
        None
    }
}

/// The state ends in what the top frame waits for.
pub open spec fn fits(state: State, top: Option<Sort>) -> bool {
    match state {
        State::Idle => top is None,
        State::Run(_) | State::Finish => top == Some(Sort::End),
        State::Reduce(_) | State::Return(_) | State::Await(_) | State::Compare { .. } => top
            == Some(Sort::Value),
        State::Unwind(_) => true,
    }
}

/// The dictionary that a frame holds exists.
pub open spec fn grounded(frame: Frame, dictionaries: nat) -> bool {
    match frame {
        Frame::EntryKey { handle, .. } => handle < dictionaries,
        Frame::EntryValue { handle, .. } => handle < dictionaries,
        _ => true,
    }
}

/// Frames whose scopes stand before a limit stand before every later limit.
proof fn lemma_ordered_grows(frames: Seq<Frame>, limit: int, more: int)
    requires
        ordered(frames, limit),
        limit <= more,
    ensures
        ordered(frames, more),
    decreases frames.len(),
{
    if frames.len() > 0 {
        if outer_of(frames.last()) is None {
            lemma_ordered_grows(frames.drop_last(), limit, more);
        }
    }
}

/// Frames that are in order stay so without the top frame, which holds what the
/// order asks of it.
proof fn lemma_stacked_pop(frames: Seq<Frame>, dictionaries: nat)
    requires
        stacked(frames, dictionaries),
        frames.len() > 0,
    ensures
        stacked(frames.drop_last(), dictionaries),
        grounded(frames.last(), dictionaries),
        top_of(frames.drop_last()) == (if frames.last() is Sequence {
            None
        } else {
            Some(gives(frames.last()))
        }),
{
    reveal(stacked);
    let rest = frames.drop_last();
    assert forall|i: int| 0 <= i < rest.len() implies #[trigger] placed(rest, i, dictionaries) by {
        assert(placed(frames, i, dictionaries));
    }
    assert(placed(frames, frames.len() - 1, dictionaries));
    if frames.len() > 1 {
        assert(placed(frames, frames.len() - 2, dictionaries));
    }
}

/// Frames that are in order stay so with one more frame that fits on top.
proof fn lemma_stacked_push(frames: Seq<Frame>, frame: Frame, dictionaries: nat)
    requires
        stacked(frames, dictionaries),
        grounded(frame, dictionaries),
        if frames.len() > 0 {
            !(frame is Sequence) && gives(frame) == takes(frames.last())
        } else {
            frame is Sequence
        },
    ensures
        stacked(frames.push(frame), dictionaries),
{
    reveal(stacked);
    let more = frames.push(frame);
    assert forall|i: int| 0 <= i < more.len() implies #[trigger] placed(more, i, dictionaries) by {
        if i < frames.len() {
            assert(placed(frames, i, dictionaries));
        }
    }
}

/// No frames are in order.
proof fn lemma_stacked_empty(dictionaries: nat)
    ensures
        stacked(Seq::<Frame>::empty(), dictionaries),
{
    reveal(stacked);
}

/// Frames that are in order stay so when dictionaries are added.
proof fn lemma_stacked_grows(frames: Seq<Frame>, dictionaries: nat, more_dictionaries: nat)
    requires
        stacked(frames, dictionaries),
        dictionaries <= more_dictionaries,
    ensures
        stacked(frames, more_dictionaries),
{
    reveal(stacked);
    assert forall|i: int| 0 <= i < frames.len() implies #[trigger] placed(
        frames,
        i,
        more_dictionaries,
    ) by {
        assert(placed(frames, i, dictionaries));
    }
}

/// The machine.
pub struct Interpreter {
    environment: Environment,
    heap: Heap,
    scope: usize,
    frames: Vec<Frame>,
    state: State,
}

impl View for Interpreter {
    type V = MachineView;

    closed spec fn view(&self) -> MachineView {
        MachineView {
            scopes: self.environment@,
            heap: self.heap@,
            scope: self.scope,
            frames: frame_views(self.frames@),
            state: self.state@,
        }
    }
}

/// What a step has made: the machine after it, and what it asks of the caller.
pub open spec fn outcome(machine: Interpreter, action: Action) -> Outcome {
    Outcome { machine: machine@, action: action@ }
}

impl Interpreter {
    /// The parts of the machine but its state are in order.
    pub closed spec fn sound(&self) -> bool {
        &&& self.environment.wf()
        &&& self.heap.wf()
        &&& self.scope < self.environment@.len()
        &&& stacked(self.frames@, self.heap@.dictionaries.len())
        &&& ordered(self.frames@, self.scope as int)
    }

    /// What the top frame waits for.
    pub closed spec fn top(&self) -> Option<Sort> {
        top_of(self.frames@)
    }

    /// The machine is in order.
    pub closed spec fn wf(&self) -> bool {
        self.sound() && fits(self.state, self.top())
    }

    /// Whether no statements are loaded.
    pub closed spec fn idle(&self) -> bool {
        self.state is Idle
    }

    /// A machine with the global scope alone and nothing loaded.
    pub fn new() -> (machine: Interpreter)
        ensures
            machine@ == (MachineView {
                scopes: seq![global_scope()],
                heap: HeapView { arrays: Seq::empty(), dictionaries: Seq::empty() },
                scope: 0,
                frames: Seq::empty(),
                state: StateView::Idle,
            }),
            machine.wf(),
            machine.idle(),
    {
        let machine = Interpreter {
            environment: Environment::new(),
            heap: Heap::new(),
            scope: 0,
            frames: Vec::new(),
            state: State::Idle,
        };
        proof {
            lemma_stacked_empty(machine.heap@.dictionaries.len());
            assert(machine@.frames =~= Seq::empty());
        }
        machine
    }

    /// Whether no statements are loaded.
    pub fn is_idle(&self) -> (yes: bool)
        ensures
            yes == self.idle(),
    {
        match &self.state {
            State::Idle => true,
            _ => false,
        }
    }

    /// Loads `statements`, to run in the global scope with all that earlier
    /// statements have left there. What was still loaded is given up, with the
    /// scopes it was in.
    pub fn load(&mut self, statements: Vec<Stmt>)
        requires
            old(self).wf(),
        ensures
            final(self)@ == (MachineView {
                scopes: settled(old(self)@.scopes),
                frames: seq![FrameView::Sequence { rest: stmt_views(statements@).reverse() }],
                scope: 0,
                state: StateView::Finish,
                ..old(self)@
            }),
            final(self).wf(),
            !final(self).idle(),
    {
        let frame = Frame::Sequence { rest: reversed(statements) };
        proof {
            lemma_reverse_stmts(statements@);
        }
        self.environment.settle();
        self.frames = Vec::new();
        proof {
            lemma_stacked_empty(self.heap@.dictionaries.len());
            lemma_stacked_push(self.frames@, frame, self.heap@.dictionaries.len());
            assert(self.frames@.push(frame).drop_last() =~= self.frames@);
        }
        self.frames.push(frame);
        self.scope = 0;
        self.state = State::Finish;
        proof {
            assert(self@.frames =~= seq![frame@]);
            assert(self.frames@.drop_last() =~= Seq::empty());
            assert(ordered(self.frames@.drop_last(), 0));
        }
    }

    /// The number of scopes that the machine holds: the global scope, the scopes
    /// that the running statements are in, and the scopes that functions were
    /// declared in.
    pub fn scopes(&self) -> (count: usize)
        requires
            self.wf(),
        ensures
            count == self@.scopes.len(),
    {
        self.environment.len()
    }

    /// What `value` is written as, with the arrays and dictionaries that the
    /// machine holds: what is to be printed for [`Action::Print`], but for the
    /// texts of the numbers in it.
    pub fn render(&self, value: &Value) -> (pieces: Vec<Piece>)
        requires
            self.wf(),
        ensures
            piece_views(pieces@) == rendered(self@.heap, value@),
    {
        render(&self.heap, value)
    }

    /// Takes one step. `event` answers what the step before asked for.
    pub fn step(&mut self, event: Event) -> (action: Action)
        requires
            old(self).wf(),
        ensures
            outcome(*final(self), action) == next(old(self)@, event),
            final(self).wf(),
            action is Done || action is Failed ==> final(self).idle(),
    {
        let mut state = State::Idle;
        core::mem::swap(&mut state, &mut self.state);
        assert(self@ == stepping(old(self)@));
        match state {
            State::Idle => Action::Done,
            State::Run(statement) => self.run(statement),
            State::Finish => self.finish(),
            State::Reduce(expression) => self.reduce(expression),
            State::Return(value) => self.deliver(value),
            State::Unwind(signal) => self.unwind(signal),
            State::Await(pending) => self.resume(pending, event),
            State::Compare { pairs, negate } => self.compare(pairs, negate),
        }
    }

    /// Gives up what is loaded, with `error`.
    fn fail(&mut self, error: ErrorType) -> (action: Action)
        requires
            old(self).sound(),
        ensures
            outcome(*final(self), action) == failing(old(self)@, error@),
            final(self).wf(),
            final(self).idle(),
            action is Failed,
    {
        self.environment.settle();
        self.frames = Vec::new();
        proof {
            lemma_stacked_empty(self.heap@.dictionaries.len());
        }
        self.scope = 0;
        self.state = State::Idle;
        proof {
            assert(self@.frames =~= Seq::empty());
        }
        Action::Failed(error)
    }

    /// Ends the run of the statements that were loaded, after the last of them.
    fn end(&mut self) -> (action: Action)
        requires
            old(self).sound(),
            old(self).top() is None,
        ensures
            outcome(*final(self), action) == (Outcome {
                machine: MachineView { scope: 0, state: StateView::Idle, ..old(self)@ },
                action: ActionView::Done,
            }),
            final(self).wf(),
            final(self).idle(),
            action is Done,
    {
        proof {
            old(self).environment.lemma_wf();
        }
        self.scope = 0;
        self.state = State::Idle;
        Action::Done
    }

    /// Takes the top frame off.
    fn pop(&mut self) -> (frame: Frame)
        requires
            old(self).sound(),
            old(self).top() is Some,
        ensures
            final(self)@ == popped(old(self)@),
            frame@ == old(self)@.frames.last(),
            final(self).sound(),
            takes(frame) == old(self).top()->0,
            final(self).top() == (if frame is Sequence {
                None
            } else {
                Some(gives(frame))
            }),
            grounded(frame, final(self).heap@.dictionaries.len()),
            match outer_of(frame) {
                Some(outer) => outer < final(self).scope && ordered(
                    final(self).frames@,
                    outer as int,
                ),
                None => true,
            },
            final(self).environment == old(self).environment,
            final(self).heap == old(self).heap,
            final(self).scope == old(self).scope,
    {
        proof {
            lemma_stacked_pop(self.frames@, self.heap@.dictionaries.len());
            match outer_of(self.frames@.last()) {
                Some(outer) => {
                    lemma_ordered_grows(self.frames@.drop_last(), outer as int, self.scope as int);
                },
                None => {},
            }
        }
        let frame = self.frames.pop().unwrap();
        proof {
            assert(self.frames@ == old(self).frames@.drop_last());
            assert(self@.frames =~= old(self)@.frames.drop_last());
        }
        frame
    }

    /// Puts `frame` on top.
    fn push(&mut self, frame: Frame)
        requires
            old(self).sound(),
            old(self).top() == Some(gives(frame)) || (old(self).top() is None && frame is Sequence),
            old(self).top() is Some ==> !(frame is Sequence),
            grounded(frame, old(self).heap@.dictionaries.len()),
            match outer_of(frame) {
                Some(outer) => outer < old(self).scope && ordered(old(self).frames@, outer as int),
                None => true,
            },
        ensures
            final(self)@ == (MachineView {
                frames: old(self)@.frames.push(frame@),
                ..old(self)@
            }),
            final(self).sound(),
            final(self).top() == Some(takes(frame)),
            final(self).environment == old(self).environment,
            final(self).heap == old(self).heap,
            final(self).scope == old(self).scope,
    {
        proof {
            lemma_stacked_push(self.frames@, frame, self.heap@.dictionaries.len());
            assert(self.frames@.push(frame).drop_last() =~= self.frames@);
        }
        self.frames.push(frame);
        proof {
            assert(self@.frames =~= old(self)@.frames.push(frame@));
        }
    }

    /// Goes on with `state`.
    fn go(&mut self, state: State) -> (action: Action)
        requires
            old(self).sound(),
            fits(state, old(self).top()),
            !(state is Idle),
        ensures
            outcome(*final(self), action) == going(old(self)@, state@),
            final(self).wf(),
            action is Continue,
    {
        self.state = state;
        Action::Continue
    }

    /// Puts `frame` on top and goes on with `state`.
    fn push_go(&mut self, frame: Frame, state: State) -> (action: Action)
        requires
            old(self).sound(),
            old(self).top() == Some(gives(frame)),
            !(frame is Sequence),
            grounded(frame, old(self).heap@.dictionaries.len()),
            match outer_of(frame) {
                Some(outer) => outer < old(self).scope && ordered(old(self).frames@, outer as int),
                None => true,
            },
            fits(state, Some(takes(frame))),
            !(state is Idle),
        ensures
            outcome(*final(self), action) == pushing(old(self)@, frame@, state@),
            final(self).wf(),
            action is Continue,
    {
        self.push(frame);
        self.go(state)
    }

    /// Makes a new scope under `parent` the current one.
    fn open_scope(&mut self, parent: usize)
        requires
            old(self).sound(),
            parent < old(self).environment@.len(),
        ensures
            final(self)@ == scoped(old(self)@, parent),
            final(self).sound(),
            final(self).top() == old(self).top(),
            final(self).scope == old(self).environment@.len(),
            final(self).frames@ == old(self).frames@,
            final(self).heap == old(self).heap,
    {
        proof {
            lemma_ordered_grows(self.frames@, self.scope as int, self.environment@.len() as int);
        }
        self.scope = self.environment.push_child(parent);
    }

    /// Leaves the current scope for the scope `outer`.
    fn leave_scope(&mut self, outer: usize)
        requires
            old(self).sound(),
            outer < old(self).scope,
            ordered(old(self).frames@, outer as int),
        ensures
            final(self)@ == left(old(self)@, outer),
            final(self).sound(),
            final(self).top() == old(self).top(),
            final(self).frames@ == old(self).frames@,
            final(self).heap == old(self).heap,
    {
        self.environment.release(self.scope);
        self.scope = outer;
    }

    /// Notes that a function holds the current scope.
    fn capture_scope(&mut self)
        requires
            old(self).sound(),
        ensures
            final(self)@ == (MachineView {
                scopes: with_capture(old(self)@.scopes, old(self)@.scope as int),
                ..old(self)@
            }),
            final(self).sound(),
            final(self).top() == old(self).top(),
            final(self).frames@ == old(self).frames@,
            final(self).heap == old(self).heap,
            final(self).scope == old(self).scope,
    {
        self.environment.capture(self.scope);
    }

    /// Binds `name` to `value` in the current scope.
    fn define(&mut self, name: String, value: Value)
        requires
            old(self).sound(),
        ensures
            final(self).frames@ == old(self).frames@,
            final(self).scope == old(self).scope,
            final(self)@ == (MachineView {
                scopes: with_binding(old(self)@.scopes, old(self)@.scope as int, name@, value@),
                ..old(self)@
            }),
            final(self).sound(),
            final(self).top() == old(self).top(),
            final(self).environment@.len() == old(self).environment@.len(),
            final(self).heap == old(self).heap,
            final(self).scope == old(self).scope,
    {
        self.environment.define(self.scope, name, value);
    }

    /// Gives `name` the value `value` where it is found from the current scope.
    fn assign(&mut self, name: &String, value: Value, line: usize) -> (result: Result<
        (),
        ErrorType,
    >)
        requires
            old(self).sound(),
        ensures
            final(self).frames@ == old(self).frames@,
            final(self).scope == old(self).scope,
            ({
                let (scopes, outcome) = assign_model(
                    old(self)@.scopes,
                    old(self)@.scope as int,
                    name@,
                    value@,
                    line,
                );
                final(self)@ == (MachineView { scopes, ..old(self)@ }) && error_view(result)
                    == outcome
            }),
            final(self).sound(),
            final(self).top() == old(self).top(),
    {
        let result = self.environment.assign(self.scope, name, value, line);
        proof {
            assert(self.environment@.len() == old(self).environment@.len());
        }
        result
    }

    /// The value of `name` as seen from the current scope.
    fn lookup(&self, name: &String, line: usize) -> (result: Result<Value, ErrorType>)
        requires
            self.sound(),
        ensures
            result_view(result) == get_model(self@.scopes, self@.scope as int, name@, line),
    {
        self.environment.get(self.scope, name, line)
    }

    /// Stores a new array of `elements`.
    fn store_array(&mut self, elements: Vec<Value>) -> (handle: usize)
        requires
            old(self).sound(),
        ensures
            final(self).frames@ == old(self).frames@,
            final(self).scope == old(self).scope,
            handle == old(self)@.heap.arrays.len(),
            final(self)@ == (MachineView {
                heap: HeapView {
                    arrays: old(self)@.heap.arrays.push(value_views(elements@)),
                    dictionaries: old(self)@.heap.dictionaries,
                },
                ..old(self)@
            }),
            final(self).sound(),
            final(self).top() == old(self).top(),
    {
        self.heap.new_array(elements)
    }

    /// Stores a new dictionary without entries.
    fn store_dictionary(&mut self) -> (handle: usize)
        requires
            old(self).sound(),
        ensures
            final(self).frames@ == old(self).frames@,
            final(self).scope == old(self).scope,
            handle == old(self)@.heap.dictionaries.len(),
            final(self)@ == (MachineView {
                heap: HeapView {
                    arrays: old(self)@.heap.arrays,
                    dictionaries: old(self)@.heap.dictionaries.push(Seq::empty()),
                },
                ..old(self)@
            }),
            final(self).sound(),
            final(self).top() == old(self).top(),
            handle < final(self).heap@.dictionaries.len(),
            final(self).environment == old(self).environment,
    {
        proof {
            lemma_stacked_grows(
                self.frames@,
                self.heap@.dictionaries.len(),
                self.heap@.dictionaries.len() + 1,
            );
        }
        self.heap.new_dictionary()
    }

    /// Writes `value` for `key` in the dictionary `handle`, if there is such a
    /// dictionary.
    fn write_entry(&mut self, handle: usize, key: Value, value: Value, line: usize) -> (result:
        Result<(), ErrorType>)
        requires
            old(self).sound(),
        ensures
            final(self).frames@ == old(self).frames@,
            final(self).scope == old(self).scope,
            ({
                let (heap, outcome) = write_entry_model(old(self)@.heap, handle, key@, value@, line);
                final(self)@ == (MachineView { heap, ..old(self)@ }) && error_view(result)
                    == outcome
            }),
            final(self).sound(),
            final(self).top() == old(self).top(),
            final(self).heap@.dictionaries.len() == old(self).heap@.dictionaries.len(),
            final(self).environment == old(self).environment,
    {
        if self.heap.has_dictionary(handle) {
            self.heap.write_dictionary(handle, key, value, line)
        } else {
            Err(ErrorType::NotIndexable { line })
        }
    }

    /// Writes `value` to the element of the array `handle` at `index`, if there
    /// is such an array.
    fn write_element(&mut self, handle: usize, index: &Value, value: Value, line: usize) -> (result:
        Result<(), ErrorType>)
        requires
            old(self).sound(),
        ensures
            final(self).frames@ == old(self).frames@,
            final(self).scope == old(self).scope,
            ({
                let (heap, outcome) = write_element_model(
                    old(self)@.heap,
                    handle,
                    index@,
                    value@,
                    line,
                );
                final(self)@ == (MachineView { heap, ..old(self)@ }) && error_view(result)
                    == outcome
            }),
            final(self).sound(),
            final(self).top() == old(self).top(),
    {
        if self.heap.has_array(handle) {
            let result = self.heap.write_array(handle, index, value, line);
            proof {
                assert(self.heap@.dictionaries.len() == old(self).heap@.dictionaries.len());
            }
            result
        } else {
            Err(ErrorType::NotIndexable { line })
        }
    }

    /// Runs a statement.
    fn run(&mut self, statement: Stmt) -> (action: Action)
        requires
            old(self).sound(),
            old(self).top() == Some(Sort::End),
        ensures
            outcome(*final(self), action) == run_model(old(self)@, statement@),
            final(self).wf(),
            action is Done || action is Failed ==> final(self).idle(),
    {
        proof {
            crate::machine::unfold_run_model(self@, statement@);
        }
        let line = statement.line;
        match statement.stmt_type {
            StmtType::Expression { expression } => self.push_go(
                Frame::Discard,
                State::Reduce(expression),
            ),
            StmtType::Print { expression } => self.push_go(Frame::Print, State::Reduce(expression)),
            StmtType::VarDecl { name, value } => self.push_go(
                Frame::Define { name },
                State::Reduce(value),
            ),
            StmtType::Block { body } => {
                let outer = self.scope;
                proof {
                    assert(outer < self.environment@.len());
                    assert(ordered(self.frames@, outer as int));
                    lemma_block_view(body);
                    lemma_reverse_stmts(body@);
                }
                self.open_scope(outer);
                self.push_go(Frame::Block { rest: reversed(body), outer }, State::Finish)
            },
            StmtType::If { condition, then_body, else_body } => {
                let other = match else_body {
                    Some(boxed) => Some(*boxed),
                    None => None,
                };
                self.push_go(
                    Frame::Branch { then_body: *then_body, else_body: other, line },
                    State::Reduce(condition),
                )
            },
            StmtType::While { condition, body } => {
                let test = condition.clone();
                self.push_go(Frame::LoopTest { condition, body: *body, line }, State::Reduce(test))
            },
            StmtType::Function { name, parameters, body } => {
                let function = Value::Function { parameters, body, closure: self.scope };
                self.define(name, function);
                self.capture_scope();
                self.go(State::Finish)
            },
            StmtType::Return { expression } => match expression {
                Some(value) => self.push_go(Frame::ReturnValue { line }, State::Reduce(value)),
                None => self.go(State::Unwind(Signal::Returned { value: Value::Null, line })),
            },
            StmtType::Break => self.go(State::Unwind(Signal::Broke { line })),
        }
    }

    /// Goes on after a statement has ended.
    fn finish(&mut self) -> (action: Action)
        requires
            old(self).sound(),
            old(self).top() == Some(Sort::End),
        ensures
            outcome(*final(self), action) == finish_model(old(self)@),
            final(self).wf(),
            action is Done || action is Failed ==> final(self).idle(),
    {
        proof {
            crate::machine::unfold_finish_model(self@);
        }
        match self.pop() {
            Frame::Sequence { mut rest } => {
                let ghost before = rest@;
                match rest.pop() {
                    Some(statement) => {
                        proof {
                            lemma_last_stmt(before);
                        }
                        self.push(Frame::Sequence { rest });
                        self.go(State::Run(statement))
                    },
                    None => self.end(),
                }
            },
            Frame::Block { mut rest, outer } => {
                let ghost before = rest@;
                match rest.pop() {
                    Some(statement) => {
                        proof {
                            lemma_last_stmt(before);
                        }
                        self.push(Frame::Block { rest, outer });
                        self.go(State::Run(statement))
                    },
                    None => {
                        self.leave_scope(outer);
                        self.go(State::Finish)
                    },
                }
            },
            Frame::LoopBody { condition, body, line } => {
                let test = condition.clone();
                self.push_go(Frame::LoopTest { condition, body, line }, State::Reduce(test))
            },
            Frame::Call { outer } => {
                self.leave_scope(outer);
                self.go(State::Return(Value::Null))
            },
            _ => {
                assert(false);
                Action::Continue
            },
        }
    }

    /// Carries a signal one frame outwards. A loop ends by a `break` that reaches
    /// it; a call has the value of a `return` that reaches it. A signal that
    /// leaves the statements that were loaded is an error.
    fn unwind(&mut self, signal: Signal) -> (action: Action)
        requires
            old(self).sound(),
        ensures
            outcome(*final(self), action) == unwind_model(old(self)@, signal@),
            final(self).wf(),
            action is Done || action is Failed ==> final(self).idle(),
    {
        proof {
            crate::machine::unfold_unwind_model(self@, signal@);
        }
        if self.frames.len() == 0 {
            return self.fail(thrown(signal));
        }
        match self.pop() {
            Frame::Sequence { .. } => self.fail(thrown(signal)),
            Frame::Block { outer, .. } => {
                self.leave_scope(outer);
                self.go(State::Unwind(signal))
            },
            Frame::LoopBody { .. } => match signal {
                Signal::Broke { .. } => self.go(State::Finish),
                Signal::Returned { .. } => self.go(State::Unwind(signal)),
            },
            Frame::Call { outer } => {
                self.leave_scope(outer);
                match signal {
                    Signal::Returned { value, .. } => self.go(State::Return(value)),
                    Signal::Broke { .. } => self.go(State::Unwind(signal)),
                }
            },
            _ => self.go(State::Unwind(signal)),
        }
    }

    /// Asks the caller for what `pending` says, and waits for it.
    fn ask(&mut self, pending: Pending) -> (action: Action)
        requires
            old(self).sound(),
            old(self).top() == Some(Sort::Value),
        ensures
            outcome(*final(self), action) == asking(old(self)@, pending@),
            final(self).wf(),
            !(action is Done || action is Failed),
    {
        let action = match &pending {
            Pending::Numeral { text } => Action::Numeral(text.clone()),
            Pending::Arithmetic { operator, left, right } => Action::Arithmetic {
                operator: *operator,
                left: *left,
                right: *right,
            },
            Pending::Comparison { operator, left, right } => Action::Comparison {
                operator: *operator,
                left: *left,
                right: *right,
            },
        };
        self.state = State::Await(pending);
        action
    }

    /// Takes the answer of the caller. An answer of the wrong kind is none: the
    /// machine asks again.
    fn resume(&mut self, pending: Pending, event: Event) -> (action: Action)
        requires
            old(self).sound(),
            old(self).top() == Some(Sort::Value),
        ensures
            outcome(*final(self), action) == resume_model(old(self)@, pending@, event),
            final(self).wf(),
            !(action is Done || action is Failed),
    {
        proof {
            crate::machine::unfold_resume_model(self@, pending@, event);
        }
        match (&pending, event) {
            (Pending::Numeral { .. }, Event::Number(bits)) => self.go(
                State::Return(Value::Number(bits)),
            ),
            (Pending::Arithmetic { .. }, Event::Number(bits)) => self.go(
                State::Return(Value::Number(bits)),
            ),
            (Pending::Comparison { .. }, Event::Truth(truth)) => self.go(
                State::Return(Value::Bool(truth)),
            ),
            _ => self.ask(pending),
        }
    }

    /// Evaluates an expression.
    fn reduce(&mut self, expression: Expr) -> (action: Action)
        requires
            old(self).sound(),
            old(self).top() == Some(Sort::Value),
        ensures
            outcome(*final(self), action) == reduce_model(old(self)@, expression@),
            final(self).wf(),
            action is Done || action is Failed ==> final(self).idle(),
    {
        proof {
            crate::machine::unfold_reduce_model(self@, expression@);
        }
        let line = expression.line;
        match expression.expr_type {
            ExprType::Literal { value } => match value {
                Literal::Number(text) => self.ask(Pending::Numeral { text }),
                Literal::Bool(truth) => self.go(State::Return(Value::Bool(truth))),
                Literal::String_(text) => self.go(State::Return(Value::String_(text))),
                Literal::Null => self.go(State::Return(Value::Null)),
            },
            ExprType::Grouping { expression } => self.go(State::Reduce(*expression)),
            ExprType::Unary { operator, right } => self.push_go(
                Frame::Unary { operator: operator.type_, line },
                State::Reduce(*right),
            ),
            ExprType::Binary { left, operator, right } => match operator.type_ {
                TokenType::And | TokenType::Or => self.push_go(
                    Frame::Logic { operator: operator.type_, right: *right, line },
                    State::Reduce(*left),
                ),
                _ => self.push_go(
                    Frame::BinaryLeft { operator: operator.type_, right: *right, line },
                    State::Reduce(*left),
                ),
            },
            ExprType::Assignment { target, value } => {
                let target = *target;
                proof {
                    assert(target@.expr_type == crate::expr::expr_type_view(target.expr_type));
                }
                match target.expr_type {
                    ExprType::Variable { name } => self.push_go(
                        Frame::AssignVariable { name, line },
                        State::Reduce(*value),
                    ),
                    ExprType::Element { array, index } => self.push_go(
                        Frame::AssignValue { array: *array, index: *index, line },
                        State::Reduce(*value),
                    ),
                    _ => self.fail(ErrorType::InvalidAssignmentTarget { line }),
                }
            },
            ExprType::Variable { name } => match self.lookup(&name, line) {
                Ok(value) => self.go(State::Return(value)),
                Err(error) => self.fail(error),
            },
            ExprType::Call { callee, arguments } => {
                proof {
                    lemma_call_view(*callee, arguments);
                }
                self.push_go(Frame::Callee { arguments, line }, State::Reduce(*callee))
            },
            ExprType::Element { array, index } => self.push_go(
                Frame::ElementContainer { index: *index, line },
                State::Reduce(*array),
            ),
            ExprType::Array { elements } => {
                let done: Vec<Value> = Vec::new();
                proof {
                    lemma_array_view(elements);
                    lemma_reverse_exprs(elements@);
                    assert(value_views(done@) =~= Seq::empty());
                }
                self.next_element(done, reversed(elements))
            },
            ExprType::Dictionary { elements } => {
                proof {
                    lemma_dictionary_view(elements);
                    lemma_reverse_pairs(elements@);
                }
                let handle = self.store_dictionary();
                self.next_entry(handle, reversed(elements), line)
            },
        }
    }

    /// Goes on with the next element of an array literal, after those in `done`;
    /// after the last, the literal has its value: a new array.
    fn next_element(&mut self, done: Vec<Value>, rest: Vec<Expr>) -> (action: Action)
        requires
            old(self).sound(),
            old(self).top() == Some(Sort::Value),
        ensures
            outcome(*final(self), action) == next_element_model(
                old(self)@,
                value_views(done@),
                expr_views(rest@),
            ),
            final(self).wf(),
            action is Continue,
    {
        proof {
            crate::machine::unfold_next_element_model(self@, value_views(done@), expr_views(rest@));
        }
        let mut rest = rest;
        let ghost before = rest@;
        match rest.pop() {
            Some(element) => {
                proof {
                    lemma_last_expr(before);
                }
                self.push_go(Frame::Elements { done, rest }, State::Reduce(element))
            },
            None => {
                let handle = self.store_array(done);
                self.go(State::Return(Value::Array(handle)))
            },
        }
    }

    /// Goes on with the next entry of a dictionary literal, which is being built
    /// in the dictionary `handle`; after the last, the literal has its value.
    fn next_entry(&mut self, handle: usize, rest: Vec<KeyValue<Expr>>, line: usize) -> (action:
        Action)
        requires
            old(self).sound(),
            old(self).top() == Some(Sort::Value),
            handle < old(self).heap@.dictionaries.len(),
        ensures
            outcome(*final(self), action) == next_entry_model(
                old(self)@,
                handle,
                pair_views(rest@),
                line,
            ),
            final(self).wf(),
            action is Continue,
    {
        proof {
            crate::machine::unfold_next_entry_model(self@, handle, pair_views(rest@), line);
        }
        let mut rest = rest;
        let ghost before = rest@;
        match rest.pop() {
            Some(entry) => {
                proof {
                    lemma_last_pair(before);
                }
                self.push_go(
                    Frame::EntryKey { handle, value: entry.value, rest, line },
                    State::Reduce(entry.key),
                )
            },
            None => self.go(State::Return(Value::Dictionary(handle))),
        }
    }

    /// Goes on with the next argument of a call, after those in `done`; after the
    /// last, the function is called.
    fn next_argument(&mut self, function: Value, done: Vec<Value>, rest: Vec<Expr>, line: usize)
        -> (action: Action)
        requires
            old(self).sound(),
            old(self).top() == Some(Sort::Value),
        ensures
            outcome(*final(self), action) == next_argument_model(
                old(self)@,
                function@,
                value_views(done@),
                expr_views(rest@),
                line,
            ),
            final(self).wf(),
            action is Done || action is Failed ==> final(self).idle(),
    {
        proof {
            crate::machine::unfold_next_argument_model(self@, function@, value_views(done@), expr_views(rest@), line);
        }
        let mut rest = rest;
        let ghost before = rest@;
        match rest.pop() {
            Some(argument) => {
                proof {
                    lemma_last_expr(before);
                }
                self.push_go(
                    Frame::Arguments { function, done, rest, line },
                    State::Reduce(argument),
                )
            },
            None => self.call(function, done, line),
        }
    }

    /// Calls `function` with `arguments`: in a new scope under the scope that the
    /// function was declared in, each parameter is bound to its argument, and the
    /// body runs there.
    fn call(&mut self, function: Value, arguments: Vec<Value>, line: usize) -> (action: Action)
        requires
            old(self).sound(),
            old(self).top() == Some(Sort::Value),
        ensures
            outcome(*final(self), action) == call_model(
                old(self)@,
                function@,
                value_views(arguments@),
                line,
            ),
            final(self).wf(),
            action is Done || action is Failed ==> final(self).idle(),
    {
        proof {
            crate::machine::unfold_call_model(self@, function@, value_views(arguments@), line);
        }
        match check_call(&function, arguments.len(), line) {
            Err(error) => {
                return self.fail(error);
            },
            Ok(()) => {},
        }
        match function {
            Value::Function { parameters, body, closure } => {
                if closure >= self.environment.len() {
                    return self.fail(ErrorType::CannotCallName { line });
                }
                let outer = self.scope;
                proof {
                    assert(outer < self.environment@.len());
                    assert(ordered(self.frames@, outer as int));
                }
                let ghost frames = self.frames@;
                self.open_scope(closure);
                let ghost inner = self@;
                let ghost names = crate::stmt::name_views(parameters@);
                let ghost values = value_views(arguments@);
                let mut i: usize = 0;
                while i < parameters.len()
                    invariant
                        i <= parameters.len(),
                        parameters.len() == arguments.len(),
                        self.sound(),
                        self.top() == Some(Sort::Value),
                        outer < self.scope,
                        self.frames@ == frames,
                        ordered(frames, outer as int),
                        names == crate::stmt::name_views(parameters@),
                        values == value_views(arguments@),
                        self@ == (MachineView { scopes: self@.scopes, ..inner }),
                        bound(self@.scopes, inner.scope as int, names, values, i as int) == bound(
                            inner.scopes,
                            inner.scope as int,
                            names,
                            values,
                            0,
                        ),
                    decreases parameters.len() - i,
                {
                    self.define(parameters[i].clone(), arguments[i].clone());
                    i += 1;
                }
                self.push_go(Frame::Call { outer }, State::Run(*body))
            },
            _ => self.fail(ErrorType::CannotCallName { line }),
        }
    }

    /// Hands the value of an expression to the frame that waits for it.
    fn deliver(&mut self, value: Value) -> (action: Action)
        requires
            old(self).sound(),
            old(self).top() == Some(Sort::Value),
        ensures
            outcome(*final(self), action) == deliver_model(old(self)@, value@),
            final(self).wf(),
            action is Done || action is Failed ==> final(self).idle(),
    {
        proof {
            crate::machine::unfold_deliver_model(self@, value@);
        }
        let frame = self.pop();
        proof {
            assert(self@.frames.push(frame@) =~= old(self)@.frames);
            assert((MachineView { frames: self@.frames.push(frame@), ..self@ }) == old(self)@);
        }
        match frame {
            Frame::Discard => self.go(State::Finish),
            Frame::Print => {
                self.state = State::Finish;
                Action::Print(value)
            },
            Frame::Define { name } => {
                self.define(name, value);
                self.go(State::Finish)
            },
            Frame::Branch { then_body, else_body, line } => match value {
                Value::Bool(true) => self.go(State::Run(then_body)),
                Value::Bool(false) => match else_body {
                    Some(other) => self.go(State::Run(other)),
                    None => self.go(State::Finish),
                },
                _ => self.fail(ErrorType::IfConditionNotBoolean { line }),
            },
            Frame::LoopTest { condition, body, line } => match value {
                Value::Bool(true) => {
                    let round = body.clone();
                    self.push_go(Frame::LoopBody { condition, body, line }, State::Run(round))
                },
                Value::Bool(false) => self.go(State::Finish),
                _ => self.fail(ErrorType::LoopConditionNotBoolean { line }),
            },
            Frame::ReturnValue { line } => self.go(State::Unwind(Signal::Returned { value, line })),
            other => self.deliver_inner(other, value),
        }
    }

    /// Hands the value of an expression to a frame of an expression that waits
    /// for it.
    fn deliver_inner(&mut self, frame: Frame, value: Value) -> (action: Action)
        requires
            old(self).sound(),
            old(self).top() == Some(Sort::Value),
            takes(frame) == Sort::Value,
            gives(frame) == Sort::Value,
            grounded(frame, old(self).heap@.dictionaries.len()),
        ensures
            outcome(*final(self), action) == deliver_model(
                MachineView { frames: old(self)@.frames.push(frame@), ..old(self)@ },
                value@,
            ),
            final(self).wf(),
            action is Done || action is Failed ==> final(self).idle(),
    {
        proof {
            crate::machine::unfold_deliver_model(
                MachineView { frames: self@.frames.push(frame@), ..self@ },
                value@,
            );
            assert(self@.frames.push(frame@).drop_last() =~= self@.frames);
        }
        match frame {
            Frame::Unary { operator, line } => match unary(operator, &value, line) {
                Ok(outcome) => self.go(State::Return(outcome)),
                Err(error) => self.fail(error),
            },
            Frame::Logic { operator, right, line } => match value {
                Value::Bool(truth) => {
                    // `and` is settled by a false left side, `or` by a true one.
                    let settled = match operator {
                        TokenType::And => !truth,
                        _ => truth,
                    };
                    if settled {
                        self.go(State::Return(Value::Bool(truth)))
                    } else {
                        self.push_go(Frame::LogicRight { line }, State::Reduce(right))
                    }
                },
                _ => self.fail(expected("Bool", &value, line)),
            },
            Frame::LogicRight { line } => match value {
                Value::Bool(truth) => self.go(State::Return(Value::Bool(truth))),
                _ => self.fail(expected("Bool", &value, line)),
            },
            Frame::BinaryLeft { operator, right, line } => self.push_go(
                Frame::BinaryRight { operator, left: value, line },
                State::Reduce(right),
            ),
            Frame::BinaryRight { operator, left, line } => self.binary(operator, left, value, line),
            Frame::AssignVariable { name, line } => {
                match self.assign(&name, value.clone(), line) {
                    Ok(()) => self.go(State::Return(value)),
                    Err(error) => self.fail(error),
                }
            },
            Frame::AssignValue { array, index, line } => {
                let variable = match &array.expr_type {
                    ExprType::Variable { name } => Some(name.clone()),
                    _ => None,
                };
                self.push_go(
                    Frame::AssignContainer { value, index, variable, line },
                    State::Reduce(array),
                )
            },
            Frame::AssignContainer { value: assigned, index, variable, line } => {
                if indexable(&value) {
                    self.push_go(
                        Frame::AssignIndex { value: assigned, container: value, variable, line },
                        State::Reduce(index),
                    )
                } else {
                    self.fail(ErrorType::NotIndexable { line })
                }
            },
            Frame::AssignIndex { value: assigned, container, variable, line } => self.write(
                container,
                value,
                assigned,
                variable,
                line,
            ),
            other => self.deliver_call(other, value),
        }
    }

    /// Hands the value of an expression to a frame of a call, an element
    /// expression or a literal that waits for it.
    fn deliver_call(&mut self, frame: Frame, value: Value) -> (action: Action)
        requires
            old(self).sound(),
            old(self).top() == Some(Sort::Value),
            frame is Callee || frame is Arguments || frame is ElementContainer
                || frame is ElementIndex || frame is Elements || frame is EntryKey
                || frame is EntryValue,
            grounded(frame, old(self).heap@.dictionaries.len()),
        ensures
            outcome(*final(self), action) == deliver_model(
                MachineView { frames: old(self)@.frames.push(frame@), ..old(self)@ },
                value@,
            ),
            final(self).wf(),
            action is Done || action is Failed ==> final(self).idle(),
    {
        proof {
            crate::machine::unfold_deliver_model(
                MachineView { frames: self@.frames.push(frame@), ..self@ },
                value@,
            );
            assert(self@.frames.push(frame@).drop_last() =~= self@.frames);
        }
        match frame {
            Frame::Callee { arguments, line } => match check_call(&value, arguments.len(), line) {
                Ok(()) => {
                    let done: Vec<Value> = Vec::new();
                    proof {
                        lemma_reverse_exprs(arguments@);
                        assert(value_views(done@) =~= Seq::empty());
                    }
                    self.next_argument(value, done, reversed(arguments), line)
                },
                Err(error) => self.fail(error),
            },
            Frame::Arguments { function, done, rest, line } => {
                let mut done = done;
                proof {
                    lemma_push_value(done@, value);
                }
                done.push(value);
                self.next_argument(function, done, rest, line)
            },
            Frame::ElementContainer { index, line } => {
                if indexable(&value) {
                    self.push_go(
                        Frame::ElementIndex { container: value, line },
                        State::Reduce(index),
                    )
                } else {
                    self.fail(ErrorType::NotIndexable { line })
                }
            },
            Frame::ElementIndex { container, line } => match self.read(&container, &value, line) {
                Ok(element) => self.go(State::Return(element)),
                Err(error) => self.fail(error),
            },
            Frame::Elements { done, rest } => {
                let mut done = done;
                proof {
                    lemma_push_value(done@, value);
                }
                done.push(value);
                self.next_element(done, rest)
            },
            Frame::EntryKey { handle, value: entry, rest, line } => match check_key(&value, line) {
                Ok(()) => self.push_go(
                    Frame::EntryValue { handle, key: value, rest, line },
                    State::Reduce(entry),
                ),
                Err(error) => self.fail(error),
            },
            Frame::EntryValue { handle, key, rest, line } => {
                match self.write_entry(handle, key, value, line) {
                    Ok(()) => self.next_entry(handle, rest, line),
                    Err(error) => self.fail(error),
                }
            },
            _ => {
                assert(false);
                Action::Continue
            },
        }
    }

    /// Reads the element of `container` at `index`.
    fn read(&self, container: &Value, index: &Value, line: usize) -> (result: Result<
        Value,
        ErrorType,
    >)
        requires
            self.sound(),
        ensures
            result_view(result) == read_model(self@.heap, container@, index@, line),
    {
        proof {
            crate::machine::unfold_read_model(self@.heap, container@, index@, line);
        }
        match container {
            Value::Array(handle) => {
                if self.heap.has_array(*handle) {
                    self.heap.read_array(*handle, index, line)
                } else {
                    Err(ErrorType::NotIndexable { line })
                }
            },
            Value::String_(text) => read_string(text, index, line),
            Value::Dictionary(handle) => {
                if self.heap.has_dictionary(*handle) {
                    self.heap.read_dictionary(*handle, index, line)
                } else {
                    Err(ErrorType::NotIndexable { line })
                }
            },
            _ => Err(ErrorType::NotIndexable { line }),
        }
    }

    /// Writes `assigned` to the element of `container` at `index`. An array and a
    /// dictionary are written in place. A string is a value of its own: the
    /// written string becomes the value of `variable` where the container is one,
    /// and is dropped else. The assignment has the value that was assigned.
    fn write(
        &mut self,
        container: Value,
        index: Value,
        assigned: Value,
        variable: Option<String>,
        line: usize,
    ) -> (action: Action)
        requires
            old(self).sound(),
            old(self).top() == Some(Sort::Value),
        ensures
            outcome(*final(self), action) == write_model(
                old(self)@,
                container@,
                index@,
                assigned@,
                crate::machine::optional_name(variable),
                line,
            ),
            final(self).wf(),
            action is Done || action is Failed ==> final(self).idle(),
    {
        proof {
            crate::machine::unfold_write_model(
                self@,
                container@,
                index@,
                assigned@,
                crate::machine::optional_name(variable),
                line,
            );
        }
        let written = match container {
            Value::Array(handle) => self.write_element(handle, &index, assigned.clone(), line),
            Value::String_(text) => match write_string(&text, &index, &assigned, line) {
                Ok(changed) => match variable {
                    Some(name) => self.assign(&name, Value::String_(changed), line),
                    None => Ok(()),
                },
                Err(error) => Err(error),
            },
            Value::Dictionary(handle) => self.write_entry(handle, index, assigned.clone(), line),
            _ => Err(ErrorType::NotIndexable { line }),
        };
        match written {
            Ok(()) => self.go(State::Return(assigned)),
            Err(error) => self.fail(error),
        }
    }

    /// Applies a binary operator to the values of its two sides.
    fn binary(&mut self, operator: TokenType, left: Value, right: Value, line: usize) -> (action:
        Action)
        requires
            old(self).sound(),
            old(self).top() == Some(Sort::Value),
        ensures
            outcome(*final(self), action) == binary_model(old(self)@, operator, left@, right@, line),
            final(self).wf(),
            action is Done || action is Failed ==> final(self).idle(),
    {
        proof {
            crate::machine::unfold_binary_model(self@, operator, left@, right@, line);
        }
        match operator {
            TokenType::EqualEqual | TokenType::BangEqual => {
                let negate = match operator {
                    TokenType::BangEqual => true,
                    _ => false,
                };
                let mut pairs: Vec<Pair> = Vec::new();
                pairs.push(Pair { left, right });
                proof {
                    assert(pair_of_views(pairs@) =~= seq![PairView { left: left@, right: right@ }]);
                }
                self.go(State::Compare { pairs, negate })
            },
            TokenType::Plus => match (left, right) {
                (Value::Number(a), Value::Number(b)) => self.ask(
                    Pending::Arithmetic { operator, left: a, right: b },
                ),
                (Value::String_(a), Value::String_(b)) => {
                    let mut joined = a;
                    joined.append(b.as_str());
                    self.go(State::Return(Value::String_(joined)))
                },
                (a, b) => self.fail(mismatch("Number or String", &a, &b, line)),
            },
            TokenType::Minus | TokenType::Star => match (left, right) {
                (Value::Number(a), Value::Number(b)) => self.ask(
                    Pending::Arithmetic { operator, left: a, right: b },
                ),
                (a, b) => self.fail(mismatch("Number", &a, &b, line)),
            },
            TokenType::Slash | TokenType::Percent => match (left, right) {
                (Value::Number(a), Value::Number(b)) => {
                    if number::zero(b) {
                        self.fail(ErrorType::DivideByZero { line })
                    } else {
                        self.ask(Pending::Arithmetic { operator, left: a, right: b })
                    }
                },
                (a, b) => self.fail(mismatch("Number", &a, &b, line)),
            },
            TokenType::Less | TokenType::Greater | TokenType::LessEqual
            | TokenType::GreaterEqual => match (left, right) {
                (Value::Number(a), Value::Number(b)) => self.ask(
                    Pending::Comparison { operator, left: a, right: b },
                ),
                (a, b) => self.fail(mismatch("Number", &a, &b, line)),
            },
            _ => self.fail(ErrorType::ExpectedExpression { line }),
        }
    }

    /// Compares the last of `pairs`. Values of different types are unequal.
    /// Arrays are equal when they are the same array or have equal elements;
    /// dictionaries, when they are the same dictionary or hold equal values for
    /// the same keys; functions, when they have the same parameters and body and
    /// were declared in the same scope.
    fn compare(&mut self, pairs: Vec<Pair>, negate: bool) -> (action: Action)
        requires
            old(self).sound(),
            old(self).top() == Some(Sort::Value),
        ensures
            outcome(*final(self), action) == compare_model(old(self)@, pair_of_views(pairs@), negate),
            final(self).wf(),
            action is Continue,
    {
        proof {
            crate::machine::unfold_compare_model(self@, pair_of_views(pairs@), negate);
        }
        let mut pairs = pairs;
        let ghost before = pairs@;
        let pair = match pairs.pop() {
            Some(pair) => pair,
            None => {
                return self.go(State::Return(Value::Bool(!negate)));
            },
        };
        proof {
            assert(pair_of_views(pairs@) =~= pair_of_views(before).drop_last());
            assert(pair_of_views(before).last() == pair@);
        }
        let equal = self.compare_pair(pair, &mut pairs);
        if equal {
            self.go(State::Compare { pairs, negate })
        } else {
            self.go(State::Return(Value::Bool(negate)))
        }
    }

    /// Whether the two values of `pair` can be equal; what has to be equal for
    /// them to be so is added to `pairs`.
    fn compare_pair(&self, pair: Pair, pairs: &mut Vec<Pair>) -> (equal: bool)
        requires
            self.sound(),
        ensures
            match compare_pair_model(self@.heap, pair@) {
                Some(more) => equal && pair_of_views(final(pairs)@) == pair_of_views(old(pairs)@)
                    + more,
                None => !equal,
            },
    {
        proof {
            crate::machine::unfold_compare_pair_model(self@.heap, pair@);
        }
        let ghost base = pair_of_views(pairs@);
        proof {
            assert(base + Seq::<PairView>::empty() =~= base);
        }
        match (pair.left, pair.right) {
            (Value::Number(a), Value::Number(b)) => number::same(a, b),
            (Value::Bool(a), Value::Bool(b)) => a == b,
            (Value::String_(a), Value::String_(b)) => a == b,
            (Value::Null, Value::Null) => true,
            (Value::Array(a), Value::Array(b)) => {
                if a == b {
                    true
                } else if self.heap.has_array(a) && self.heap.has_array(b) {
                    let length = self.heap.array_len(a);
                    if self.heap.array_len(b) != length {
                        false
                    } else {
                        let mut i: usize = 0;
                        while i < length
                            invariant
                                a < self.heap@.arrays.len(),
                                b < self.heap@.arrays.len(),
                                length == self.heap@.arrays[a as int].len(),
                                length == self.heap@.arrays[b as int].len(),
                                i <= length,
                                pair_of_views(pairs@) == base + Seq::new(
                                    i as nat,
                                    |k: int|
                                        PairView {
                                            left: self.heap@.arrays[a as int][k],
                                            right: self.heap@.arrays[b as int][k],
                                        },
                                ),
                            decreases length - i,
                        {
                            let ghost so_far = pairs@;
                            let next = Pair {
                                left: self.heap.element(a, i),
                                right: self.heap.element(b, i),
                            };
                            pairs.push(next);
                            i += 1;
                            proof {
                                assert(pair_of_views(pairs@) =~= pair_of_views(so_far).push(next@));
                                assert(pair_of_views(pairs@) =~= base + Seq::new(
                                    i as nat,
                                    |k: int|
                                        PairView {
                                            left: self.heap@.arrays[a as int][k],
                                            right: self.heap@.arrays[b as int][k],
                                        },
                                ));
                            }
                        }
                        true
                    }
                } else {
                    false
                }
            },
            (Value::Dictionary(a), Value::Dictionary(b)) => {
                if a == b {
                    true
                } else if self.heap.has_dictionary(a) && self.heap.has_dictionary(b) {
                    let length = self.heap.dictionary_len(a);
                    if self.heap.dictionary_len(b) != length {
                        false
                    } else {
                        let ghost first = self.heap@.dictionaries[a as int];
                        let ghost second = self.heap@.dictionaries[b as int];
                        let ghost mut found: Seq<PairView> = Seq::empty();
                        let mut same = true;
                        let mut i: usize = 0;
                        while i < length && same
                            invariant
                                self.heap.wf(),
                                a < self.heap@.dictionaries.len(),
                                b < self.heap@.dictionaries.len(),
                                first == self.heap@.dictionaries[a as int],
                                second == self.heap@.dictionaries[b as int],
                                length == first.len(),
                                i <= length,
                                same ==> pair_of_views(pairs@) == base + found,
                                same ==> entry_pairs(first, second, 0) == (match entry_pairs(
                                    first,
                                    second,
                                    i as int,
                                ) {
                                    Some(more) => Some(found + more),
                                    None => None,
                                }),
                                !same ==> entry_pairs(first, second, 0) is None,
                            decreases length - i,
                        {
                            let ghost so_far = pairs@;
                            let entry = self.heap.entry_at(a, i);
                            match self.heap.find(b, &entry.key) {
                                Some(other) => {
                                    let next = Pair { left: entry.value, right: other };
                                    pairs.push(next);
                                    proof {
                                        assert(pair_of_views(pairs@) =~= pair_of_views(so_far).push(
                                            next@,
                                        ));
                                        match entry_pairs(first, second, i + 1) {
                                            Some(more) => {
                                                assert(found + (seq![next@] + more) =~= found.push(
                                                    next@,
                                                ) + more);
                                            },
                                            None => {},
                                        }
                                        found = found.push(next@);
                                        assert(pair_of_views(pairs@) =~= base + found);
                                    }
                                },
                                None => {
                                    same = false;
                                },
                            }
                            i += 1;
                        }
                        proof {
                            if same {
                                assert(found + Seq::<PairView>::empty() =~= found);
                            }
                        }
                        same
                    }
                } else {
                    false
                }
            },
            (
                Value::Function { parameters: names, body, closure },
                Value::Function { parameters: other_names, body: other_body, closure: other_closure },
            ) => closure == other_closure && same_names(&names, &other_names) && same_stmt(
                &body,
                &other_body,
            ),
            _ => false,
        }
    }
}

/// Reads `source` and loads its statements into `interpreter`, ready to run.
/// Where the text holds what is no token, nothing is loaded and all such errors
/// are given; else, where the tokens hold what is no statement, nothing is
/// loaded and all such errors are given.
pub fn run(source: &str, interpreter: &mut Interpreter) -> (result: Result<(), Vec<ErrorType>>)
    requires
        old(interpreter).wf(),
    ensures
        final(interpreter).wf(),
        ({
            let read = lex(source@);
            let parsed = program(read.tokens, Cursor { index: 0, line: 1 }, Seq::empty(), Seq::empty());
            if read.errors.len() > 0 {
                &&& result matches Err(errors)
                &&& errors@ == read.errors
                &&& final(interpreter)@ == old(interpreter)@
            } else if parsed.errors.len() > 0 {
                &&& result matches Err(errors)
                &&& errors@ == parsed.errors
                &&& final(interpreter)@ == old(interpreter)@
            } else {
                &&& result is Ok
                &&& final(interpreter)@ == (MachineView {
                    scopes: settled(old(interpreter)@.scopes),
                    frames: seq![FrameView::Sequence { rest: parsed.statements.reverse() }],
                    scope: 0,
                    state: StateView::Finish,
                    ..old(interpreter)@
                })
            }
        }),
{
    let tokens = match Tokenizer::new(source).tokenize() {
        Ok(tokens) => tokens,
        Err(errors) => {
            return Err(errors);
        },
    };
    let mut parser = Parser::new(tokens);
    match parser.parse() {
        Ok(statements) => {
            interpreter.load(statements);
            Ok(())
        },
        Err(errors) => Err(errors),
    }
}

/// The list in the opposite order.
pub fn reversed<T>(list: Vec<T>) -> (turned: Vec<T>)
    ensures
        turned@ == list@.reverse(),
{
    let mut list = list;
    let mut turned: Vec<T> = Vec::new();
    let ghost all = list@;
    while list.len() > 0
        invariant
            list@.len() + turned@.len() == all.len(),
            forall|i: int| 0 <= i < list@.len() ==> list@[i] == all[i],
            forall|i: int| 0 <= i < turned@.len() ==> turned@[i] == all[all.len() - 1 - i],
        decreases list@.len(),
    {
        let item = list.pop().unwrap();
        turned.push(item);
    }
    assert(turned@ =~= all.reverse());
    turned
}

/// The error that a signal is when it leaves the statements that were loaded.
pub fn thrown(signal: Signal) -> (error: ErrorType)
    ensures
        error@ == thrown_model(signal@),
{
    match signal {
        Signal::Broke { line } => ErrorType::ThrownBreak { line },
        Signal::Returned { value, line } => ErrorType::ThrownReturn { value, line },
    }
}

/// The error of a value that is not of the type `wanted`.
pub fn expected(wanted: &str, value: &Value, line: usize) -> (error: ErrorType)
    ensures
        error@ == expected_model(wanted@, value@, line),
{
    ErrorType::ExpectedType { expected: wanted.to_owned(), got: kind_name(value), line }
}

/// The error of two operands that are not both of the type `wanted`.
pub fn mismatch(wanted: &str, left: &Value, right: &Value, line: usize) -> (error: ErrorType)
    ensures
        error@ == mismatch_model(wanted@, left@, right@, line),
{
    ErrorType::BinaryTypeError {
        expected: wanted.to_owned(),
        got_left: kind_name(left),
        got_right: kind_name(right),
        line,
    }
}

/// Whether a value can be indexed: an array, a string or a dictionary.
pub fn indexable(value: &Value) -> (yes: bool)
    ensures
        yes == is_indexable(value@),
{
    match value {
        Value::Array(_) | Value::String_(_) | Value::Dictionary(_) => true,
        _ => false,
    }
}

/// Applies a unary operator: `-` to a number, `!` to a truth value.
pub fn unary(operator: TokenType, value: &Value, line: usize) -> (result: Result<Value, ErrorType>)
    ensures
        result_view(result) == unary_model(operator, value@, line),
{
    match operator {
        TokenType::Minus => match value {
            Value::Number(bits) => Ok(Value::Number(number::negate(*bits))),
            _ => Err(expected("Number", value, line)),
        },
        TokenType::Bang => match value {
            Value::Bool(truth) => Ok(Value::Bool(!*truth)),
            _ => Err(expected("Bool", value, line)),
        },
        _ => Err(ErrorType::ExpectedExpression { line }),
    }
}

/// Checks a call of `callee` with `arguments` arguments: the callee has to be a
/// function, and the function has to have as many parameters.
pub fn check_call(callee: &Value, arguments: usize, line: usize) -> (result: Result<(), ErrorType>)
    ensures
        error_view(result) == call_check_model(callee@, arguments as nat, line),
{
    match callee {
        Value::Function { parameters, .. } => {
            if parameters.len() == arguments {
                Ok(())
            } else {
                Err(
                    ErrorType::ArgParamNumberMismatch {
                        arg_number: arguments,
                        param_number: parameters.len(),
                        line,
                    },
                )
            }
        },
        _ => Err(ErrorType::CannotCallName { line }),
    }
}


/// The views of statements without the last are the views without the last.
pub proof fn lemma_last_stmt(statements: Seq<Stmt>)
    requires
        statements.len() > 0,
    ensures
        stmt_views(statements.subrange(0, statements.len() - 1)) == stmt_views(
            statements,
        ).drop_last(),
        stmt_views(statements).last() == statements.last()@,
{
    assert(stmt_views(statements.subrange(0, statements.len() - 1)) =~= stmt_views(
        statements,
    ).drop_last());
}

/// The views of expressions without the last are the views without the last.
pub proof fn lemma_last_expr(expressions: Seq<Expr>)
    requires
        expressions.len() > 0,
    ensures
        expr_views(expressions.subrange(0, expressions.len() - 1)) == expr_views(
            expressions,
        ).drop_last(),
        expr_views(expressions).last() == expressions.last()@,
{
    assert(expr_views(expressions.subrange(0, expressions.len() - 1)) =~= expr_views(
        expressions,
    ).drop_last());
}

/// The views of pairs without the last are the views without the last.
pub proof fn lemma_last_pair(pairs: Seq<KeyValue<Expr>>)
    requires
        pairs.len() > 0,
    ensures
        pair_views(pairs.subrange(0, pairs.len() - 1)) == pair_views(pairs).drop_last(),
        pair_views(pairs).last() == (KeyValue {
            key: pairs.last().key@,
            value: pairs.last().value@,
        }),
{
    assert(pair_views(pairs.subrange(0, pairs.len() - 1)) =~= pair_views(pairs).drop_last());
}

/// The views of values with one more value.
pub proof fn lemma_push_value(values: Seq<Value>, value: Value)
    ensures
        value_views(values.push(value)) == value_views(values).push(value@),
{
    assert(value_views(values.push(value)) =~= value_views(values).push(value@));
}

/// The views of statements in the opposite order are the views in the opposite
/// order.
pub proof fn lemma_reverse_stmts(statements: Seq<Stmt>)
    ensures
        stmt_views(statements.reverse()) == stmt_views(statements).reverse(),
{
    assert(stmt_views(statements.reverse()) =~= stmt_views(statements).reverse());
}

/// The views of expressions in the opposite order are the views in the opposite
/// order.
pub proof fn lemma_reverse_exprs(expressions: Seq<Expr>)
    ensures
        expr_views(expressions.reverse()) == expr_views(expressions).reverse(),
{
    assert(expr_views(expressions.reverse()) =~= expr_views(expressions).reverse());
}

/// The views of pairs in the opposite order are the views in the opposite order.
pub proof fn lemma_reverse_pairs(pairs: Seq<KeyValue<Expr>>)
    ensures
        pair_views(pairs.reverse()) == pair_views(pairs).reverse(),
{
    assert(pair_views(pairs.reverse()) =~= pair_views(pairs).reverse());
}

} // verus!
