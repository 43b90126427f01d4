//! A whole call, step by step: what the steps of the machine make of a call of
//! a function that returns its two parameters in an array.

use vstd::prelude::*;
use crate::environment::{child_scope, lemma_child_sees_parent, lookup};
use crate::expr::{ExprTypeView, ExprView};
use crate::heap::HeapView;
use crate::interpreter::Event;
use crate::machine::{
    bound, lemma_bound_frame, lemma_bound_parameter, next, popped, scoped, stepping,
    unfold_call_model, unfold_deliver_model, unfold_finish_model, unfold_next_argument_model,
    unfold_next_element_model, unfold_reduce_model, unfold_run_model, unfold_unwind_model,
    FrameView, MachineView, SignalView, StateView,
};
use crate::stmt::{StmtTypeView, StmtView};
use crate::value::ValueView;

verus! {

/// The machine after `count` steps, each answered with nothing.
pub open spec fn after_steps(m: MachineView, count: nat) -> MachineView
    decreases count,
{
    if count == 0 {
        m
    } else {
        after_steps(next(m, Event::Nothing).machine, (count - 1) as nat)
    }
}

/// The name `name` as an expression.
pub open spec fn variable(name: Seq<char>, line: usize) -> ExprView {
    ExprView { line, expr_type: ExprTypeView::Variable { name } }
}

/// The body `{ return [a, b] }`.
pub open spec fn pair_body(a: Seq<char>, b: Seq<char>, line: usize) -> StmtView {
    StmtView {
        line,
        stmt_type: StmtTypeView::Block {
            body: seq![
                StmtView {
                    line,
                    stmt_type: StmtTypeView::Return {
                        expression: Some(
                            ExprView {
                                line,
                                expr_type: ExprTypeView::Array {
                                    elements: seq![variable(a, line), variable(b, line)],
                                },
                            },
                        ),
                    },
                },
            ],
        },
    }
}

/// The function `func f(a, b) { return [a, b] }`, declared in the scope `closure`.
pub open spec fn pair_function(a: Seq<char>, b: Seq<char>, closure: usize, line: usize)
    -> ValueView {
    ValueView::Function { parameters: seq![a, b], body: pair_body(a, b, line), closure }
}

/// A call of `func f(a, b) { return [a, b] }` with two arguments yields an array
/// of the two, in their order. From the step at which the second argument has
/// its value `y`, the first having the value `x`, twelve steps end the call: the
/// expression of the call has as its value a new array that holds `x` and `y`;
/// the machine is back in the scope of the caller, with the frames that were
/// below the call; and the scopes are as they were before the call, whatever the
/// caller's scope binds the names of the parameters to.
pub proof fn lemma_pair_call(
    m: MachineView,
    x: ValueView,
    y: ValueView,
    a: Seq<char>,
    b: Seq<char>,
    closure: usize,
    line: usize,
    at: usize,
)
    requires
        m.state == StateView::Return(y),
        m.frames.len() > 0,
        m.frames.last() == (FrameView::Arguments {
            function: pair_function(a, b, closure, line),
            done: seq![x],
            rest: Seq::empty(),
            line: at,
        }),
        a != b,
        closure < m.scopes.len(),
        m.scopes.len() + 2 <= usize::MAX,
        m.heap.arrays.len() < usize::MAX,
    ensures
        after_steps(m, 12) == (MachineView {
            heap: HeapView {
                arrays: m.heap.arrays.push(seq![x, y]),
                dictionaries: m.heap.dictionaries,
            },
            frames: m.frames.drop_last(),
            state: StateView::Return(ValueView::Array(m.heap.arrays.len() as usize)),
            ..m
        }),
{
    reveal_with_fuel(after_steps, 13);
    let function = pair_function(a, b, closure, line);
    let body = pair_body(a, b, line);
    let statements = body.stmt_type->Block_body;
    let returning = statements[0];
    let array = returning.stmt_type->Return_expression->0;
    let names = seq![a, b];
    let arguments = seq![x].push(y);
    let below = m.frames.drop_last();
    let n = m.scopes.len() as int;
    assert(arguments =~= seq![x, y]);

    // The second argument has its value: the function is called.
    let s0 = stepping(m);
    unfold_deliver_model(s0, y);
    unfold_next_argument_model(popped(s0), function, arguments, Seq::empty(), at);
    unfold_call_model(popped(s0), function, arguments, at);
    let m1 = next(m, Event::Nothing).machine;
    let entered = scoped(popped(s0), closure);
    let s1 = bound(entered.scopes, n, names, arguments, 0);
    lemma_bound_frame(entered.scopes, n, names, arguments, 0, n);
    lemma_bound_parameter(entered.scopes, n, names, arguments, 0, 0);
    lemma_bound_parameter(entered.scopes, n, names, arguments, 0, 1);
    assert forall|j: int| 0 <= j < n implies s1[j] == m.scopes[j] by {
        lemma_bound_frame(entered.scopes, n, names, arguments, 0, j);
    }
    assert(m1 == MachineView {
        scopes: s1,
        scope: n as usize,
        frames: below.push(FrameView::Call { outer: m.scope }),
        state: StateView::Run(body),
        ..m
    });

    // The body is a block: a scope of its own, and its statements.
    unfold_run_model(stepping(m1), body);
    let m2 = next(m1, Event::Nothing).machine;
    let s2 = s1.push(child_scope(n as usize));
    let turned = statements.reverse();
    assert(turned =~= seq![returning]);
    assert(m2 == MachineView {
        scopes: s2,
        scope: (n + 1) as usize,
        frames: m1.frames.push(FrameView::Block { rest: turned, outer: n as usize }),
        state: StateView::Finish,
        ..m1
    });

    // The statement of the block is next.
    unfold_finish_model(stepping(m2));
    let m3 = next(m2, Event::Nothing).machine;
    let block = FrameView::Block { rest: Seq::empty(), outer: n as usize };
    assert(turned.drop_last() =~= Seq::<StmtView>::empty());
    assert(m2.frames.drop_last() =~= m1.frames);
    assert(m3 == MachineView {
        frames: m1.frames.push(block),
        state: StateView::Run(returning),
        ..m2
    });

    // It returns the value of an expression.
    unfold_run_model(stepping(m3), returning);
    let m4 = next(m3, Event::Nothing).machine;
    let waiting = m3.frames.push(FrameView::ReturnValue { line });
    assert(m4 == MachineView { frames: waiting, state: StateView::Reduce(array), ..m3 });

    // The expression is an array literal: its first element is next.
    let elements = seq![variable(a, line), variable(b, line)];
    let back = elements.reverse();
    assert(back =~= seq![variable(b, line), variable(a, line)]);
    assert(back.drop_last() =~= seq![variable(b, line)]);
    unfold_reduce_model(stepping(m4), array);
    unfold_next_element_model(stepping(m4), Seq::empty(), back);
    let m5 = next(m4, Event::Nothing).machine;
    assert(m5 == MachineView {
        frames: waiting.push(
            FrameView::Elements { done: Seq::empty(), rest: seq![variable(b, line)] },
        ),
        state: StateView::Reduce(variable(a, line)),
        ..m4
    });

    // The first parameter has the value of the first argument.
    lemma_child_sees_parent(s1, n as usize, a);
    lemma_child_sees_parent(s1, n as usize, b);
    assert(lookup(s1, n, a) == Some(x));
    assert(lookup(s1, n, b) == Some(y));
    unfold_reduce_model(stepping(m5), variable(a, line));
    let m6 = next(m5, Event::Nothing).machine;
    assert(m6 == MachineView { state: StateView::Return(x), ..m5 });

    // The second element is next.
    unfold_deliver_model(stepping(m6), x);
    unfold_next_element_model(
        popped(stepping(m6)),
        Seq::<ValueView>::empty().push(x),
        seq![variable(b, line)],
    );
    let m7 = next(m6, Event::Nothing).machine;
    assert(m6.frames.drop_last() =~= waiting);
    assert(seq![variable(b, line)].drop_last() =~= Seq::<ExprView>::empty());
    assert(Seq::<ValueView>::empty().push(x) =~= seq![x]);
    assert(m7 == MachineView {
        frames: waiting.push(FrameView::Elements { done: seq![x], rest: Seq::empty() }),
        state: StateView::Reduce(variable(b, line)),
        ..m6
    });

    // The second parameter has the value of the second argument.
    unfold_reduce_model(stepping(m7), variable(b, line));
    let m8 = next(m7, Event::Nothing).machine;
    assert(m8 == MachineView { state: StateView::Return(y), ..m7 });

    // The array is complete.
    unfold_deliver_model(stepping(m8), y);
    unfold_next_element_model(popped(stepping(m8)), seq![x].push(y), Seq::empty());
    let m9 = next(m8, Event::Nothing).machine;
    let made = ValueView::Array(m.heap.arrays.len() as usize);
    let heap = HeapView {
        arrays: m.heap.arrays.push(seq![x, y]),
        dictionaries: m.heap.dictionaries,
    };
    assert(m8.frames.drop_last() =~= waiting);
    assert(m9 == MachineView { heap, frames: waiting, state: StateView::Return(made), ..m8 });

    // It is the value that is returned.
    unfold_deliver_model(stepping(m9), made);
    let m10 = next(m9, Event::Nothing).machine;
    let signal = SignalView::Returned { value: made, line };
    assert(waiting.drop_last() =~= m3.frames);
    assert(m10 == MachineView { frames: m3.frames, state: StateView::Unwind(signal), ..m9 });

    // The return leaves the block and its scope.
    unfold_unwind_model(stepping(m10), signal);
    let m11 = next(m10, Event::Nothing).machine;
    assert(m3.frames.drop_last() =~= m1.frames);
    assert(s2.drop_last() =~= s1);
    assert(m11 == MachineView {
        scopes: s1,
        scope: n as usize,
        frames: m1.frames,
        state: StateView::Unwind(signal),
        ..m10
    });

    // It reaches the call, which has its value and leaves its scope.
    unfold_unwind_model(stepping(m11), signal);
    let m12 = next(m11, Event::Nothing).machine;
    assert(m1.frames.drop_last() =~= below);
    assert(s1.drop_last() =~= m.scopes);
    assert(m12 == MachineView {
        scopes: m.scopes,
        scope: m.scope,
        frames: below,
        state: StateView::Return(made),
        ..m11
    });
    assert(after_steps(m, 12) == m12);
}

} // verus!
