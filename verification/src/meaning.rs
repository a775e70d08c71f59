//! What a session computes, given a host.
//!
//! A session leaves arithmetic to its host, so what a program does depends
//! on what the host answers. This module describes a host as a collection
//! of functions, says what the value of a plan is with such a host, and
//! shows that a session which is driven by the host gathers exactly these
//! values.

use vstd::prelude::*;
use crate::arithmetic::{well_ordered, Operator, StepView};
use crate::execution::{
    advanced,
    conclude,
    lemma_advance_keeps_segments,
    loaded,
    value_at,
    PurposeView,
    Reply,
    RequestView,
    SessionView,
    TaskView,
};
use crate::number::{Number, Single};
use crate::turtle::Point;

verus! {

/// A host: for every request, the answer that it gives.
pub ghost struct Host {
    /// The value of a literal.
    pub literal: spec_fn(Seq<char>) -> Number,
    /// The result of an operator on two numbers.
    pub binary: spec_fn(Operator, Number, Number) -> Number,
    /// The binary64 form of an integer.
    pub integer: spec_fn(int) -> Number,
    /// The place reached from a place, along a heading, over a distance.
    pub advance: spec_fn(Point, Single, Number) -> Point,
    /// The heading after a turn by some degrees, to the right or to the left.
    pub turn: spec_fn(Single, Number, bool) -> Single,
    /// The binary32 form of a number.
    pub narrow: spec_fn(Number) -> Single,
}

/// The host's answer to a request.
pub open spec fn answer(host: Host, request: RequestView) -> Reply {
    match request {
        RequestView::Finished => Reply::Nothing,
        RequestView::Proceed => Reply::Nothing,
        RequestView::Literal(text) => Reply::Number((host.literal)(text)),
        RequestView::Arithmetic(op, a, b) => Reply::Number((host.binary)(op, a, b)),
        RequestView::Integer(i) => Reply::Number((host.integer)(i)),
        RequestView::Advance { position, heading, distance } => Reply::Point(
            (host.advance)(position, heading, distance),
        ),
        RequestView::Turn { heading, degrees, clockwise } => Reply::Single(
            (host.turn)(heading, degrees, clockwise),
        ),
        RequestView::Narrow(value) => Reply::Single((host.narrow)(value)),
    }
}

/// The session after `n` transitions, each request answered by the host,
/// and the reply that is due to the next transition.
pub open spec fn driven(host: Host, s: SessionView, reply: Reply, n: nat) -> (SessionView, Reply)
    decreases n,
{
    if n == 0 {
        (s, reply)
    } else {
        let next = advanced(s, reply);
        driven(host, next.0, answer(host, next.1), (n - 1) as nat)
    }
}

/// The value of a step: a known number is itself, a literal is what the
/// host reads, an operation is what the host makes of the values of its
/// operands. A step that is not there has the value NaN.
pub open spec fn step_value(host: Host, steps: Seq<StepView>, id: int) -> Number
    decreases id,
{
    if 0 <= id < steps.len() {
        match steps[id] {
            StepView::Constant(n) => n,
            StepView::Literal(text) => (host.literal)(text),
            StepView::Binary(op, l, r) => (host.binary)(
                op,
                if 0 <= l < id {
                    step_value(host, steps, l)
                } else {
                    Number { bits: 0x7FF8_0000_0000_0000 }
                },
                if 0 <= r < id {
                    step_value(host, steps, r)
                } else {
                    Number { bits: 0x7FF8_0000_0000_0000 }
                },
            ),
        }
    } else {
        Number { bits: 0x7FF8_0000_0000_0000 }
    }
}

/// The values of the first `count` steps.
pub open spec fn step_values(host: Host, steps: Seq<StepView>, count: int) -> Seq<Number> {
    Seq::new(count as nat, |i: int| step_value(host, steps, i))
}

/// How many transitions it takes to gather the values of the steps from
/// `from` on: one for a known number, two for a step that the host answers.
pub open spec fn transitions(steps: Seq<StepView>, from: int) -> nat
    decreases steps.len() - from,
{
    if 0 <= from < steps.len() {
        (match steps[from] {
            StepView::Constant(_) => 1nat,
            _ => 2nat,
        }) + transitions(steps, from + 1)
    } else {
        0
    }
}

/// A session that gathers the values of a plan.
pub open spec fn gathering(
    s: SessionView,
    purpose: PurposeView,
    steps: Seq<StepView>,
    results: Seq<int>,
    values: Seq<Number>,
) -> SessionView {
    SessionView { task: TaskView::Evaluating { purpose, steps, results, values }, ..s }
}

/// A session that is driven by a host gathers the values of a plan: from
/// any point at which the values gathered so far are the values of their
/// steps, it comes to the point at which every step has its value, and
/// nothing else of the session has changed.
pub proof fn lemma_session_gathers_the_values(
    host: Host,
    s: SessionView,
    purpose: PurposeView,
    steps: Seq<StepView>,
    results: Seq<int>,
    count: int,
)
    requires
        well_ordered(steps),
        0 <= count <= steps.len(),
    ensures
        driven(
            host,
            gathering(s, purpose, steps, results, step_values(host, steps, count)),
            Reply::Nothing,
            transitions(steps, count),
        ) == (
            gathering(s, purpose, steps, results, step_values(host, steps, steps.len() as int)),
            Reply::Nothing,
        ),
    decreases steps.len() - count,
{
    let values = step_values(host, steps, count);
    let here = gathering(s, purpose, steps, results, values);
    if count < steps.len() {
        let more = step_values(host, steps, count + 1);
        let there = gathering(s, purpose, steps, results, more);
        assert(more =~= values.push(step_value(host, steps, count)));
        lemma_session_gathers_the_values(host, s, purpose, steps, results, count + 1);
        let rest = transitions(steps, count + 1);
        match steps[count] {
            StepView::Constant(n) => {
                assert(advanced(here, Reply::Nothing) == (there, RequestView::Proceed));
                assert(driven(host, here, Reply::Nothing, 1 + rest) == driven(
                    host,
                    there,
                    Reply::Nothing,
                    rest,
                ));
            },
            StepView::Literal(text) => {
                let v = (host.literal)(text);
                assert(advanced(here, Reply::Nothing) == (here, RequestView::Literal(text)));
                assert(advanced(here, Reply::Number(v)) == (there, RequestView::Proceed));
                assert(driven(host, here, Reply::Nothing, 2 + rest) == driven(
                    host,
                    here,
                    Reply::Number(v),
                    1 + rest,
                ));
                assert(driven(host, here, Reply::Number(v), 1 + rest) == driven(
                    host,
                    there,
                    Reply::Nothing,
                    rest,
                ));
            },
            StepView::Binary(op, l, r) => {
                assert(0 <= l < count && 0 <= r < count);
                assert(value_at(values, l) == step_value(host, steps, l));
                assert(value_at(values, r) == step_value(host, steps, r));
                let v = (host.binary)(op, value_at(values, l), value_at(values, r));
                assert(v == step_value(host, steps, count));
                assert(advanced(here, Reply::Nothing) == (
                    here,
                    RequestView::Arithmetic(op, value_at(values, l), value_at(values, r)),
                ));
                assert(advanced(here, Reply::Number(v)) == (there, RequestView::Proceed));
                assert(driven(host, here, Reply::Nothing, 2 + rest) == driven(
                    host,
                    here,
                    Reply::Number(v),
                    1 + rest,
                ));
                assert(driven(host, here, Reply::Number(v), 1 + rest) == driven(
                    host,
                    there,
                    Reply::Nothing,
                    rest,
                ));
            },
        }
    }
}

/// When every step has its value, the next transition concludes the
/// statement with the values of the plan.
pub proof fn lemma_session_concludes_with_the_values(
    host: Host,
    s: SessionView,
    purpose: PurposeView,
    steps: Seq<StepView>,
    results: Seq<int>,
)
    ensures
        advanced(
            gathering(s, purpose, steps, results, step_values(host, steps, steps.len() as int)),
            Reply::Nothing,
        ) == (
            SessionView {
                turtle: conclude(
                    s.turtle,
                    purpose,
                    results,
                    step_values(host, steps, steps.len() as int),
                ).0,
                task: conclude(
                    s.turtle,
                    purpose,
                    results,
                    step_values(host, steps, steps.len() as int),
                ).1,
                ..s
            },
            RequestView::Proceed,
        ),
{
}

/// A move walks the value of its expression. Once the session has the
/// values of the plan of a move, and the distance is finite, three
/// transitions put the turtle where the host says that it comes to from its
/// position, along its heading, over that distance.
pub proof fn lemma_forward_walks_the_value(
    host: Host,
    s: SessionView,
    steps: Seq<StepView>,
    results: Seq<int>,
    values: Seq<Number>,
)
    requires
        values.len() >= steps.len(),
        crate::execution::result_at(results, values, 0).is_finite(),
    ensures
        driven(host, gathering(s, PurposeView::Forward, steps, results, values), Reply::Nothing, 3)
            == (
            SessionView {
                turtle: s.turtle.moved_to(
                    (host.advance)(
                        s.turtle.position,
                        s.turtle.angle,
                        crate::execution::result_at(results, values, 0),
                    ),
                ),
                task: TaskView::Idle,
                ..s
            },
            Reply::Nothing,
        ),
{
    let distance = crate::execution::result_at(results, values, 0);
    let start = gathering(s, PurposeView::Forward, steps, results, values);
    let moving = SessionView { task: TaskView::Moving { distance }, ..s };
    let target = (host.advance)(s.turtle.position, s.turtle.angle, distance);
    let arrived = SessionView { turtle: s.turtle.moved_to(target), task: TaskView::Idle, ..s };
    assert(advanced(start, Reply::Nothing) == (moving, RequestView::Proceed));
    assert(advanced(moving, Reply::Nothing) == (
        moving,
        RequestView::Advance {
            position: s.turtle.position,
            heading: s.turtle.angle,
            distance,
        },
    ));
    assert(advanced(moving, Reply::Point(target)) == (arrived, RequestView::Proceed));
    assert(driven(host, arrived, Reply::Nothing, 0) == (arrived, Reply::Nothing));
    assert(driven(host, moving, Reply::Point(target), 1) == (arrived, Reply::Nothing));
    assert(driven(host, moving, Reply::Nothing, 2) == (arrived, Reply::Nothing));
}

/// Whatever state a session is in, whatever the host answers and however
/// many transitions are made, the turtle has as many segment colours and
/// segment widths as it has segments.
pub proof fn lemma_segments_stay_aligned(host: Host, s: SessionView, reply: Reply, n: nat)
    requires
        s.turtle.well_formed(),
    ensures
        driven(host, s, reply, n).0.turtle.well_formed(),
    decreases n,
{
    if n > 0 {
        lemma_advance_keeps_segments(s, reply);
        let next = advanced(s, reply);
        lemma_segments_stay_aligned(host, next.0, answer(host, next.1), (n - 1) as nat);
    }
}

/// Whatever program a session is given, the turtle has as many segment
/// colours and segment widths as it has segments at every point of the run.
pub proof fn lemma_programs_keep_segments_aligned(
    host: Host,
    s: SessionView,
    program: Seq<char>,
    n: nat,
)
    requires
        s.turtle.well_formed(),
    ensures
        driven(host, loaded(s, program), Reply::Nothing, n).0.turtle.well_formed(),
{
    lemma_segments_stay_aligned(host, loaded(s, program), Reply::Nothing, n);
}

} // verus!
