//! Running programs.
//!
//! A [`Session`] holds a turtle and the program that runs on it. It runs by
//! transitions: [`Session::advance`] makes one and says what the session
//! needs next. What it needs is arithmetic: the session itself has none, and
//! asks its host for one operation at a time, handing the result to the next
//! transition. Between two requests the session takes statements apart,
//! plans their expressions, keeps the variables, decides what is valid, and
//! updates the turtle.

use vstd::prelude::*;
use crate::arithmetic::{
    compile,
    plan_into,
    step_views,
    Draft,
    Operator,
    Step,
    StepView,
};
use crate::color::{from_unmultiplied, premultiplied, Color};
use crate::commands::{
    chain,
    command_of,
    lookup,
    parse_statement,
    parsed,
    statements_of,
    CommandKind,
    Statement,
    StatementView,
    Variable,
    VariableTypes,
    VariableView,
};
use crate::diagnostics::{
    about,
    about_both,
    about_two,
    about_value,
    Diagnostic,
    DiagnosticKind,
    DiagnosticView,
};
use crate::number::{
    decimal,
    decimal_text,
    integer_of,
    is_number_literal,
    number_literal,
    parse_integer,
    Number,
    Single,
};
use crate::parsing::{chars_of, copy_text, string_of, texts};
use crate::turtle::{fresh, Point, Turtle, TurtleView};

verus! {

/// The number of statements and loop rounds that one program may take.
pub const STEP_BUDGET: u64 = 1_000_000;

/// What the host hands to a transition.
#[derive(Clone, Copy, Debug, PartialEq, Eq, Structural)]
pub enum Reply {
    /// Nothing: no request is open, or it is to be made again.
    Nothing,
    /// The answer to `Literal`, `Arithmetic` and `Integer`.
    Number(Number),
    /// The answer to `Turn` and `Narrow`.
    Single(Single),
    /// The answer to `Advance`.
    Point(Point),
}

/// What a session needs from its host after a transition. The host owes
/// the answers of IEEE 754 arithmetic.
#[derive(Debug)]
pub enum Request {
    /// Nothing is left to run.
    Finished,
    /// Nothing but the next transition.
    Proceed,
    /// The binary64 value that the decimal literal denotes.
    Literal(String),
    /// The result of the operator on the two binary64 values, the left one
    /// first: product, quotient, the quotient rounded down to an integer,
    /// the remainder with the sign of the left value, sum, difference.
    Arithmetic(Operator, Number, Number),
    /// The binary64 value nearest to the integer.
    Integer(i64),
    /// The place that the turtle reaches from `position` when it walks
    /// `distance` along `heading`: with the distance as a binary32 value,
    /// `x - distance * sin(heading)` and `y - distance * cos(heading)`.
    Advance { position: Point, heading: Single, distance: Number },
    /// The heading after a turn by `degrees` from `heading`. With the
    /// degrees as a binary32 value and `turn = degrees * (2 * pi / 360)`,
    /// a turn to the right gives `heading - turn`, and a turn to the left
    /// gives `heading - (2 * pi - turn)`.
    Turn { heading: Single, degrees: Number, clockwise: bool },
    /// The binary32 value nearest to the number.
    Narrow(Number),
}

/// A request as a mathematical value.
pub ghost enum RequestView {
    Finished,
    Proceed,
    Literal(Seq<char>),
    Arithmetic(Operator, Number, Number),
    Integer(int),
    Advance { position: Point, heading: Single, distance: Number },
    Turn { heading: Single, degrees: Number, clockwise: bool },
    Narrow(Number),
}

impl View for Request {
    type V = RequestView;

    open spec fn view(&self) -> RequestView {
        match self {
            Request::Finished => RequestView::Finished,
            Request::Proceed => RequestView::Proceed,
            Request::Literal(t) => RequestView::Literal(t@),
            Request::Arithmetic(op, a, b) => RequestView::Arithmetic(*op, *a, *b),
            Request::Integer(i) => RequestView::Integer(*i as int),
            Request::Advance { position, heading, distance } => RequestView::Advance {
                position: *position,
                heading: *heading,
                distance: *distance,
            },
            Request::Turn { heading, degrees, clockwise } => RequestView::Turn {
                heading: *heading,
                degrees: *degrees,
                clockwise: *clockwise,
            },
            Request::Narrow(n) => RequestView::Narrow(*n),
        }
    }
}

/// What the values of a plan are for.
#[derive(Debug)]
pub enum Purpose {
    /// The value of the variable `name`, given as the text `raw`.
    Assign { name: Vec<char>, raw: Vec<char> },
    /// The distance of a move.
    Forward,
    /// The degrees of a turn to the right.
    RotateRight,
    /// The degrees of a turn to the left.
    RotateLeft,
    /// The four channels of a pen colour.
    PenColor,
    /// The width of the pen.
    PenWidth,
}

/// A purpose as a mathematical value.
pub ghost enum PurposeView {
    Assign { name: Seq<char>, raw: Seq<char> },
    Forward,
    RotateRight,
    RotateLeft,
    PenColor,
    PenWidth,
}

impl View for Purpose {
    type V = PurposeView;

    open spec fn view(&self) -> PurposeView {
        match self {
            Purpose::Assign { name, raw } => PurposeView::Assign { name: name@, raw: raw@ },
            Purpose::Forward => PurposeView::Forward,
            Purpose::RotateRight => PurposeView::RotateRight,
            Purpose::RotateLeft => PurposeView::RotateLeft,
            Purpose::PenColor => PurposeView::PenColor,
            Purpose::PenWidth => PurposeView::PenWidth,
        }
    }
}

/// What a session is in the middle of.
#[derive(Debug)]
pub enum Task {
    /// Nothing: the next statement is due.
    Idle,
    /// The values of a plan are being gathered, one for each step.
    Evaluating { purpose: Purpose, steps: Vec<Step>, results: Vec<usize>, values: Vec<Number> },
    /// The turtle is to walk `distance`; the place it reaches is awaited.
    Moving { distance: Number },
    /// The turtle is to turn by `degrees`; the new heading is awaited.
    Turning { degrees: Number, clockwise: bool },
    /// The pen is to get the width `value`; its binary32 form is awaited.
    Narrowing { value: Number },
    /// The loop variable `name` is to be bound to `index`, whose binary64
    /// form is awaited; then `body`, if there is one, is run.
    Binding { name: Vec<char>, index: i64, body: Option<Vec<char>> },
}

/// A task as a mathematical value.
pub ghost enum TaskView {
    Idle,
    Evaluating {
        purpose: PurposeView,
        steps: Seq<StepView>,
        results: Seq<int>,
        values: Seq<Number>,
    },
    Moving { distance: Number },
    Turning { degrees: Number, clockwise: bool },
    Narrowing { value: Number },
    Binding { name: Seq<char>, index: int, body: Option<Seq<char>> },
}

/// A list of positions as integers.
pub open spec fn positions(v: Seq<usize>) -> Seq<int> {
    Seq::new(v.len(), |i: int| v[i] as int)
}

impl View for Task {
    type V = TaskView;

    open spec fn view(&self) -> TaskView {
        match self {
            Task::Idle => TaskView::Idle,
            Task::Evaluating { purpose, steps, results, values } => TaskView::Evaluating {
                purpose: purpose@,
                steps: step_views(steps@),
                results: positions(results@),
                values: values@,
            },
            Task::Moving { distance } => TaskView::Moving { distance: *distance },
            Task::Turning { degrees, clockwise } => TaskView::Turning {
                degrees: *degrees,
                clockwise: *clockwise,
            },
            Task::Narrowing { value } => TaskView::Narrowing { value: *value },
            Task::Binding { name, index, body } => TaskView::Binding {
                name: name@,
                index: *index as int,
                body: match body {
                    Some(b) => Some(b@),
                    None => None,
                },
            },
        }
    }
}

/// A part of the program that is being run.
#[derive(Debug)]
#[allow(inconsistent_fields)]
pub enum Frame {
    /// A list of statements; `next` is the one that is due.
    Block { statements: Vec<Vec<char>>, next: usize },
    /// A loop over `next..end` with the variable `name`.
    Loop { name: Vec<char>, next: i64, end: i64, body: Vec<char> },
}

/// A frame as a mathematical value.
#[allow(inconsistent_fields)]
pub ghost enum FrameView {
    Block { statements: Seq<Seq<char>>, next: int },
    Loop { name: Seq<char>, next: int, end: int, body: Seq<char> },
}

impl View for Frame {
    type V = FrameView;

    open spec fn view(&self) -> FrameView {
        match self {
            Frame::Block { statements, next } => FrameView::Block {
                statements: texts(statements@),
                next: *next as int,
            },
            Frame::Loop { name, next, end, body } => FrameView::Loop {
                name: name@,
                next: *next as int,
                end: *end as int,
                body: body@,
            },
        }
    }
}

/// The frames of a list as mathematical values.
pub open spec fn frame_views(frames: Seq<Frame>) -> Seq<FrameView> {
    Seq::new(frames.len(), |i: int| frames[i]@)
}

/// A turtle and the program that runs on it.
pub struct Session {
    pub turtle: Turtle,
    /// The parts of the program that are being run, the innermost last.
    pub frames: Vec<Frame>,
    pub task: Task,
    /// How many statements and loop rounds the program may still take.
    pub budget: u64,
}

/// A session as a mathematical value.
pub ghost struct SessionView {
    pub turtle: TurtleView,
    pub frames: Seq<FrameView>,
    pub task: TaskView,
    pub budget: int,
}

impl View for Session {
    type V = SessionView;

    open spec fn view(&self) -> SessionView {
        SessionView {
            turtle: self.turtle@,
            frames: frame_views(self.frames@),
            task: self.task@,
            budget: self.budget as int,
        }
    }
}

/// The plan of several expressions, one after the other.
pub ghost struct Planned {
    pub steps: Seq<StepView>,
    /// For each expression, the step that holds its value.
    pub results: Seq<int>,
    /// The log after planning.
    pub log: Seq<DiagnosticView>,
}

/// Plans the first `count` of the arguments, in order, into one plan.
pub open spec fn planning(turtle: TurtleView, arguments: Seq<Seq<char>>, count: nat) -> Planned
    decreases count,
{
    if count == 0 || count > arguments.len() {
        Planned { steps: Seq::empty(), results: Seq::empty(), log: turtle.history }
    } else {
        let before = planning(turtle, arguments, (count - 1) as nat);
        let text = arguments[count - 1];
        let r = compile(
            text,
            turtle.variables,
            Draft { steps: before.steps, log: before.log },
            text.len(),
        );
        Planned { steps: r.draft.steps, results: before.results.push(r.id), log: r.draft.log }
    }
}

/// What the start of a statement leaves: the turtle, the task, and the
/// frame that the statement opens, if it opens one.
pub ghost struct Begun {
    pub turtle: TurtleView,
    pub task: TaskView,
    pub frame: Option<FrameView>,
}

/// The statement is over at once, with an entry in the log.
pub open spec fn reported(turtle: TurtleView, entry: DiagnosticView) -> Begun {
    Begun { turtle: turtle.with_report(entry), task: TaskView::Idle, frame: None }
}

/// The statement is over at once.
pub open spec fn done(turtle: TurtleView) -> Begun {
    Begun { turtle, task: TaskView::Idle, frame: None }
}

/// The statement needs the values of its first `count` arguments.
pub open spec fn evaluating(
    turtle: TurtleView,
    purpose: PurposeView,
    arguments: Seq<Seq<char>>,
    count: nat,
) -> Begun {
    let p = planning(turtle, arguments, count);
    Begun {
        turtle: TurtleView { history: p.log, ..turtle },
        task: TaskView::Evaluating {
            purpose,
            steps: p.steps,
            results: p.results,
            values: Seq::empty(),
        },
        frame: None,
    }
}

/// How many arguments a command needs.
pub open spec fn arity(kind: CommandKind) -> nat {
    match kind {
        CommandKind::Forward => 1,
        CommandKind::RotateRight => 1,
        CommandKind::RotateLeft => 1,
        CommandKind::PenColor => 4,
        CommandKind::PenWidth => 1,
        CommandKind::PrintValue => 1,
        CommandKind::PrintRaw => 1,
        CommandKind::Repeat => 3,
        _ => 0,
    }
}

/// The start of a loop over the integers from the second argument up to,
/// and not including, the third. Bounds that are not integers, or that
/// stand in the wrong order, end the statement with an entry in the log.
/// Otherwise the loop is opened, and its variable is bound to the first
/// bound before any round is made.
pub open spec fn begin_repeat(
    turtle: TurtleView,
    arguments: Seq<Seq<char>>,
    block: Option<Seq<char>>,
) -> Begun {
    let from = integer_of(arguments[1]);
    let to = integer_of(arguments[2]);
    if from is None {
        reported(turtle, about(DiagnosticKind::BadStart, arguments[1]))
    } else if to is None {
        reported(turtle, about(DiagnosticKind::BadEnd, arguments[2]))
    } else if from->0 > to->0 {
        reported(turtle, about_two(DiagnosticKind::EmptyRange, arguments[1], arguments[2]))
    } else {
        Begun {
            turtle,
            task: TaskView::Binding { name: arguments[0], index: from->0 as int, body: None },
            frame: Some(
                FrameView::Loop {
                    name: arguments[0],
                    next: from->0 as int,
                    end: to->0 as int,
                    body: match block {
                        Some(b) => b,
                        None => Seq::empty(),
                    },
                },
            ),
        }
    }
}

/// The start of a command that has the arguments it needs.
pub open spec fn begin_command(
    turtle: TurtleView,
    kind: CommandKind,
    arguments: Seq<Seq<char>>,
    block: Option<Seq<char>>,
) -> Begun {
    match kind {
        CommandKind::Forward => evaluating(turtle, PurposeView::Forward, arguments, 1),
        CommandKind::RotateRight => evaluating(turtle, PurposeView::RotateRight, arguments, 1),
        CommandKind::RotateLeft => evaluating(turtle, PurposeView::RotateLeft, arguments, 1),
        CommandKind::PenColor => evaluating(turtle, PurposeView::PenColor, arguments, 4),
        CommandKind::PenWidth => evaluating(turtle, PurposeView::PenWidth, arguments, 1),
        CommandKind::PenUp => done(TurtleView { pen_up: true, ..turtle }),
        CommandKind::PenDown => done(turtle.with_pen_down()),
        CommandKind::PrintValue => if turtle.variables.contains_key(arguments[0]) {
            reported(
                turtle,
                about_both(
                    DiagnosticKind::Value,
                    arguments[0],
                    turtle.variables[arguments[0]].variable_type.value(),
                ),
            )
        } else {
            reported(turtle, about(DiagnosticKind::Undefined, arguments[0]))
        },
        CommandKind::PrintRaw => if turtle.variables.contains_key(arguments[0]) {
            reported(
                turtle,
                about_two(
                    DiagnosticKind::Raw,
                    arguments[0],
                    turtle.variables[arguments[0]].raw_value,
                ),
            )
        } else {
            reported(turtle, about(DiagnosticKind::Undefined, arguments[0]))
        },
        CommandKind::Clear => done(TurtleView { history: Seq::empty(), ..turtle }),
        CommandKind::Reset => done(fresh()),
        CommandKind::Repeat => begin_repeat(turtle, arguments, block),
        CommandKind::Help => reported(turtle, about(DiagnosticKind::Help, Seq::empty())),
    }
}

/// The start of a statement. An assignment whose target is a number is
/// refused; any other needs the value of its right side. A call is looked
/// up in the command table; a name that is not in it, and a call with too
/// few arguments, end the statement with an entry in the log.
pub open spec fn begin(turtle: TurtleView, statement: Seq<char>) -> Begun {
    match parsed(statement) {
        StatementView::Malformed => reported(turtle, about(DiagnosticKind::Malformed, statement)),
        StatementView::Assignment { name, value } => if is_number_literal(name) {
            reported(turtle, about(DiagnosticKind::NumberAsName, name))
        } else {
            evaluating(turtle, PurposeView::Assign { name, raw: value }, seq![value], 1)
        },
        StatementView::Call { name, arguments, block } => match command_of(name) {
            None => reported(turtle, about(DiagnosticKind::Unknown, name)),
            Some(kind) => if arguments.len() < arity(kind) {
                reported(turtle, about(DiagnosticKind::Malformed, statement))
            } else {
                begin_command(turtle, kind, arguments, block)
            },
        },
    }
}

/// The value of a step, NaN where the step has none.
pub open spec fn value_at(values: Seq<Number>, id: int) -> Number {
    if 0 <= id < values.len() {
        values[id]
    } else {
        Number { bits: 0x7FF8_0000_0000_0000 }
    }
}

/// The value of the `k`-th expression of a plan.
pub open spec fn result_at(results: Seq<int>, values: Seq<Number>, k: int) -> Number {
    if 0 <= k < results.len() {
        value_at(values, results[k])
    } else {
        Number { bits: 0x7FF8_0000_0000_0000 }
    }
}

/// The pen colour of four channel values: each must be an integer from 0 to
/// 255. The first that is not is reported, and the turtle stays as it is.
pub open spec fn with_channels(turtle: TurtleView, r: Number, g: Number, b: Number, a: Number)
    -> TurtleView {
    if r.channel_of() is None {
        turtle.with_report(about_value(DiagnosticKind::BadChannel, r))
    } else if g.channel_of() is None {
        turtle.with_report(about_value(DiagnosticKind::BadChannel, g))
    } else if b.channel_of() is None {
        turtle.with_report(about_value(DiagnosticKind::BadChannel, b))
    } else if a.channel_of() is None {
        turtle.with_report(about_value(DiagnosticKind::BadChannel, a))
    } else {
        let c = premultiplied(
            r.channel_of()->0,
            g.channel_of()->0,
            b.channel_of()->0,
            a.channel_of()->0,
        );
        (TurtleView {
            pencolor: Color { r: c.0, g: c.1, b: c.2, a: c.3 },
            ..turtle
        }).with_new_segment()
    }
}

/// The turtle after the assignment of `value`, given as the text `raw`, to
/// `name`: a variable that may not be overwritten stays, with an entry in
/// the log.
pub open spec fn assigned(turtle: TurtleView, name: Seq<char>, raw: Seq<char>, value: Number)
    -> TurtleView {
    if turtle.variables.contains_key(name) && !turtle.variables[name].writable {
        turtle.with_report(about(DiagnosticKind::ReadOnly, name))
    } else {
        turtle.with_variable(
            name,
            VariableView {
                raw_value: raw,
                variable_type: VariableTypes::Number { value },
                writable: true,
            },
        )
    }
}

/// What a statement does once the values of its expressions are known.
pub open spec fn conclude(
    turtle: TurtleView,
    purpose: PurposeView,
    results: Seq<int>,
    values: Seq<Number>,
) -> (TurtleView, TaskView) {
    let first = result_at(results, values, 0);
    match purpose {
        PurposeView::Assign { name, raw } => (assigned(turtle, name, raw, first), TaskView::Idle),
        PurposeView::Forward => if first.is_finite() {
            (turtle, TaskView::Moving { distance: first })
        } else {
            (turtle.with_report(about_value(DiagnosticKind::BadDistance, first)), TaskView::Idle)
        },
        PurposeView::RotateRight => if first.is_finite() {
            (turtle, TaskView::Turning { degrees: first, clockwise: true })
        } else {
            (turtle.with_report(about_value(DiagnosticKind::BadAngle, first)), TaskView::Idle)
        },
        PurposeView::RotateLeft => if first.is_finite() {
            (turtle, TaskView::Turning { degrees: first, clockwise: false })
        } else {
            (turtle.with_report(about_value(DiagnosticKind::BadAngle, first)), TaskView::Idle)
        },
        PurposeView::PenWidth => if first.is_finite() {
            (turtle, TaskView::Narrowing { value: first })
        } else {
            (turtle.with_report(about_value(DiagnosticKind::BadWidth, first)), TaskView::Idle)
        },
        PurposeView::PenColor => (
            with_channels(
                turtle,
                first,
                result_at(results, values, 1),
                result_at(results, values, 2),
                result_at(results, values, 3),
            ),
            TaskView::Idle,
        ),
    }
}

/// The turtle with the loop variable `name` bound to `index`.
pub open spec fn bound(turtle: TurtleView, name: Seq<char>, index: int, value: Number)
    -> TurtleView {
    turtle.with_variable(
        name,
        VariableView {
            raw_value: decimal_text(index),
            variable_type: VariableTypes::Number { value },
            writable: false,
        },
    )
}

/// The session when its budget is used up: the log says so, and nothing is
/// left to run.
pub open spec fn exhausted(s: SessionView) -> (SessionView, RequestView) {
    (
        SessionView {
            turtle: s.turtle.with_report(about(DiagnosticKind::Exhausted, Seq::empty())),
            frames: Seq::empty(),
            ..s
        },
        RequestView::Finished,
    )
}

/// The transition of a session that is between two statements. With
/// nothing left to run, the session is finished. A list of statements that
/// is through, and a loop that has made its rounds, are left behind.
/// Otherwise the next statement is started, or the next round of the loop is
/// prepared; either takes one from the budget, and is not done when the
/// budget is used up.
pub open spec fn fetch(s: SessionView) -> (SessionView, RequestView) {
    if s.frames.len() == 0 {
        (s, RequestView::Finished)
    } else {
        let rest = s.frames.drop_last();
        match s.frames.last() {
            FrameView::Block { statements, next } => if !(0 <= next < statements.len()) {
                (SessionView { frames: rest, ..s }, RequestView::Proceed)
            } else if s.budget <= 0 {
                exhausted(s)
            } else {
                let b = begin(s.turtle, statements[next]);
                let kept = rest.push(FrameView::Block { statements, next: next + 1 });
                (
                    SessionView {
                        turtle: b.turtle,
                        frames: if b.frame is Some {
                            kept.push(b.frame->0)
                        } else {
                            kept
                        },
                        task: b.task,
                        budget: s.budget - 1,
                    },
                    RequestView::Proceed,
                )
            },
            FrameView::Loop { name, next, end, body } => if next >= end {
                (SessionView { frames: rest, ..s }, RequestView::Proceed)
            } else if s.budget <= 0 {
                exhausted(s)
            } else {
                (
                    SessionView {
                        frames: rest.push(FrameView::Loop { name, next: next + 1, end, body }),
                        task: TaskView::Binding { name, index: next, body: Some(body) },
                        budget: s.budget - 1,
                        ..s
                    },
                    RequestView::Proceed,
                )
            },
        }
    }
}

/// The transition of a session that gathers the values of a plan. A known
/// number is taken as it is. A literal and an operation are asked of the
/// host, and the answer is taken as the value of the step. When every step
/// has its value, the statement is concluded.
pub open spec fn gather(
    s: SessionView,
    purpose: PurposeView,
    steps: Seq<StepView>,
    results: Seq<int>,
    values: Seq<Number>,
    reply: Reply,
) -> (SessionView, RequestView) {
    if values.len() >= steps.len() {
        let c = conclude(s.turtle, purpose, results, values);
        (SessionView { turtle: c.0, task: c.1, ..s }, RequestView::Proceed)
    } else {
        let with_value = |v: Number|
            SessionView {
                task: TaskView::Evaluating { purpose, steps, results, values: values.push(v) },
                ..s
            };
        match steps[values.len() as int] {
            StepView::Constant(n) => (with_value(n), RequestView::Proceed),
            StepView::Literal(text) => match reply {
                Reply::Number(v) => (with_value(v), RequestView::Proceed),
                _ => (s, RequestView::Literal(text)),
            },
            StepView::Binary(op, l, r) => match reply {
                Reply::Number(v) => (with_value(v), RequestView::Proceed),
                _ => (s, RequestView::Arithmetic(op, value_at(values, l), value_at(values, r))),
            },
        }
    }
}

/// One transition of a session.
pub open spec fn advanced(s: SessionView, reply: Reply) -> (SessionView, RequestView) {
    match s.task {
        TaskView::Idle => fetch(s),
        TaskView::Evaluating { purpose, steps, results, values } => gather(
            s,
            purpose,
            steps,
            results,
            values,
            reply,
        ),
        TaskView::Moving { distance } => match reply {
            Reply::Point(p) => (
                SessionView { turtle: s.turtle.moved_to(p), task: TaskView::Idle, ..s },
                RequestView::Proceed,
            ),
            _ => (
                s,
                RequestView::Advance {
                    position: s.turtle.position,
                    heading: s.turtle.angle,
                    distance,
                },
            ),
        },
        TaskView::Turning { degrees, clockwise } => match reply {
            Reply::Single(a) => (
                SessionView {
                    turtle: TurtleView { angle: a, ..s.turtle },
                    task: TaskView::Idle,
                    ..s
                },
                RequestView::Proceed,
            ),
            _ => (s, RequestView::Turn { heading: s.turtle.angle, degrees, clockwise }),
        },
        TaskView::Narrowing { value } => match reply {
            Reply::Single(w) => (
                SessionView {
                    turtle: (TurtleView { penwidth: w, ..s.turtle }).with_new_segment(),
                    task: TaskView::Idle,
                    ..s
                },
                RequestView::Proceed,
            ),
            _ => (s, RequestView::Narrow(value)),
        },
        TaskView::Binding { name, index, body } => match reply {
            Reply::Number(v) => (
                SessionView {
                    turtle: bound(s.turtle, name, index, v),
                    frames: match body {
                        Some(b) => s.frames.push(
                            FrameView::Block { statements: statements_of(b), next: 0 },
                        ),
                        None => s.frames,
                    },
                    task: TaskView::Idle,
                    ..s
                },
                RequestView::Proceed,
            ),
            _ => (s, RequestView::Integer(index)),
        },
    }
}

/// The session with the program `text` put on top of what it runs, and the
/// full budget.
pub open spec fn loaded(s: SessionView, text: Seq<char>) -> SessionView {
    SessionView {
        frames: s.frames.push(FrameView::Block { statements: statements_of(text), next: 0 }),
        budget: STEP_BUDGET as int,
        ..s
    }
}

/// How many arguments a command needs.
pub fn arguments_needed(kind: CommandKind) -> (n: usize)
    ensures
        n == arity(kind),
{
    match kind {
        CommandKind::Forward => 1,
        CommandKind::RotateRight => 1,
        CommandKind::RotateLeft => 1,
        CommandKind::PenColor => 4,
        CommandKind::PenWidth => 1,
        CommandKind::PrintValue => 1,
        CommandKind::PrintRaw => 1,
        CommandKind::Repeat => 3,
        _ => 0,
    }
}

/// Plans the first `count` arguments into one plan and starts the task
/// that gathers its values.
fn start_evaluation(
    turtle: &mut Turtle,
    purpose: Purpose,
    arguments: &Vec<Vec<char>>,
    count: usize,
) -> (task: Task)
    requires
        count <= arguments.len(),
    ensures
        evaluating(old(turtle)@, purpose@, texts(arguments@), count as nat) == (Begun {
            turtle: final(turtle)@,
            task: task@,
            frame: None,
        }),
{
    let mut steps: Vec<Step> = Vec::new();
    let mut results: Vec<usize> = Vec::new();
    let values: Vec<Number> = Vec::new();
    let mut i: usize = 0;
    assert(step_views(steps@) =~= Seq::<StepView>::empty());
    assert(positions(results@) =~= Seq::<int>::empty());
    while i < count
        invariant
            i <= count <= arguments.len(),
            planning(old(turtle)@, texts(arguments@), i as nat) == (Planned {
                steps: step_views(steps@),
                results: positions(results@),
                log: turtle@.history,
            }),
            turtle@ == (TurtleView { history: turtle@.history, ..old(turtle)@ }),
        decreases count - i,
    {
        let ghost before = positions(results@);
        assert(texts(arguments@)[i as int] == arguments@[i as int]@);
        let id = plan_into(&arguments[i], turtle, &mut steps);
        results.push(id);
        assert(positions(results@) =~= before.push(id as int));
        i += 1;
    }
    Task::Evaluating { purpose, steps, results, values }
}

fn report_and_stop(turtle: &mut Turtle, entry: Diagnostic) -> (r: (Task, Option<Frame>))
    ensures
        reported(old(turtle)@, entry@) == (Begun {
            turtle: final(turtle)@,
            task: r.0@,
            frame: match r.1 {
                Some(f) => Some(f@),
                None => None,
            },
        }),
{
    turtle.report(entry);
    (Task::Idle, None)
}

fn begin_loop(turtle: &mut Turtle, arguments: &Vec<Vec<char>>, block: &Option<Vec<char>>) -> (r: (
    Task,
    Option<Frame>,
))
    requires
        arguments.len() >= 3,
    ensures
        begin_repeat(
            old(turtle)@,
            texts(arguments@),
            match block {
                Some(b) => Some(b@),
                None => None,
            },
        ) == (Begun {
            turtle: final(turtle)@,
            task: r.0@,
            frame: match r.1 {
                Some(f) => Some(f@),
                None => None,
            },
        }),
{
    assert(texts(arguments@)[0] == arguments@[0]@);
    assert(texts(arguments@)[1] == arguments@[1]@);
    assert(texts(arguments@)[2] == arguments@[2]@);
    let from = match parse_integer(&arguments[1]) {
        Some(from) => from,
        None => {
            return report_and_stop(
                turtle,
                Diagnostic::text(DiagnosticKind::BadStart, string_of(&arguments[1])),
            );
        },
    };
    let to = match parse_integer(&arguments[2]) {
        Some(to) => to,
        None => {
            return report_and_stop(
                turtle,
                Diagnostic::text(DiagnosticKind::BadEnd, string_of(&arguments[2])),
            );
        },
    };
    if from > to {
        return report_and_stop(
            turtle,
            Diagnostic::texts(
                DiagnosticKind::EmptyRange,
                string_of(&arguments[1]),
                string_of(&arguments[2]),
            ),
        );
    }
    let body = match block {
        Some(b) => copy_text(b),
        None => Vec::new(),
    };
    (
        Task::Binding { name: copy_text(&arguments[0]), index: from, body: None },
        Some(Frame::Loop { name: copy_text(&arguments[0]), next: from, end: to, body }),
    )
}

fn print_variable(turtle: &mut Turtle, name: &Vec<char>, raw: bool) -> (r: (Task, Option<Frame>))
    ensures
        (if old(turtle)@.variables.contains_key(name@) {
            reported(
                old(turtle)@,
                if raw {
                    about_two(
                        DiagnosticKind::Raw,
                        name@,
                        old(turtle)@.variables[name@].raw_value,
                    )
                } else {
                    about_both(
                        DiagnosticKind::Value,
                        name@,
                        old(turtle)@.variables[name@].variable_type.value(),
                    )
                },
            )
        } else {
            reported(old(turtle)@, about(DiagnosticKind::Undefined, name@))
        }) == (Begun {
            turtle: final(turtle)@,
            task: r.0@,
            frame: match r.1 {
                Some(f) => Some(f@),
                None => None,
            },
        }),
{
    let key = string_of(name);
    let entry = match turtle.variables.get(key.as_str()) {
        Some(variable) => {
            if raw {
                Diagnostic::texts(DiagnosticKind::Raw, string_of(name), variable.raw_value.clone())
            } else {
                Diagnostic::named(
                    DiagnosticKind::Value,
                    string_of(name),
                    variable.variable_type.get_value(),
                )
            }
        },
        None => Diagnostic::text(DiagnosticKind::Undefined, string_of(name)),
    };
    report_and_stop(turtle, entry)
}

fn begin_call(
    turtle: &mut Turtle,
    kind: CommandKind,
    arguments: &Vec<Vec<char>>,
    block: &Option<Vec<char>>,
) -> (r: (Task, Option<Frame>))
    requires
        arguments.len() >= arity(kind),
    ensures
        begin_command(
            old(turtle)@,
            kind,
            texts(arguments@),
            match block {
                Some(b) => Some(b@),
                None => None,
            },
        ) == (Begun {
            turtle: final(turtle)@,
            task: r.0@,
            frame: match r.1 {
                Some(f) => Some(f@),
                None => None,
            },
        }),
{
    match kind {
        CommandKind::Forward => (start_evaluation(turtle, Purpose::Forward, arguments, 1), None),
        CommandKind::RotateRight => (
            start_evaluation(turtle, Purpose::RotateRight, arguments, 1),
            None,
        ),
        CommandKind::RotateLeft => (
            start_evaluation(turtle, Purpose::RotateLeft, arguments, 1),
            None,
        ),
        CommandKind::PenColor => (start_evaluation(turtle, Purpose::PenColor, arguments, 4), None),
        CommandKind::PenWidth => (start_evaluation(turtle, Purpose::PenWidth, arguments, 1), None),
        CommandKind::PenUp => {
            turtle.lift_pen();
            (Task::Idle, None)
        },
        CommandKind::PenDown => {
            turtle.lower_pen();
            (Task::Idle, None)
        },
        CommandKind::PrintValue => {
            assert(texts(arguments@)[0] == arguments@[0]@);
            print_variable(turtle, &arguments[0], false)
        },
        CommandKind::PrintRaw => {
            assert(texts(arguments@)[0] == arguments@[0]@);
            print_variable(turtle, &arguments[0], true)
        },
        CommandKind::Clear => {
            turtle.clear_history();
            (Task::Idle, None)
        },
        CommandKind::Reset => {
            turtle.reset();
            (Task::Idle, None)
        },
        CommandKind::Repeat => begin_loop(turtle, arguments, block),
        CommandKind::Help => report_and_stop(
            turtle,
            Diagnostic::text(DiagnosticKind::Help, String::new()),
        ),
    }
}

/// Starts a statement on the turtle: what can be done without a value is
/// done, and the task that is left is returned, with the frame that the
/// statement opens.
pub fn begin_statement(turtle: &mut Turtle, statement: &Vec<char>) -> (r: (Task, Option<Frame>))
    ensures
        begin(old(turtle)@, statement@) == (Begun {
            turtle: final(turtle)@,
            task: r.0@,
            frame: match r.1 {
                Some(f) => Some(f@),
                None => None,
            },
        }),
{
    match parse_statement(statement) {
        Statement::Malformed => report_and_stop(
            turtle,
            Diagnostic::text(DiagnosticKind::Malformed, string_of(statement)),
        ),
        Statement::Assignment { name, value } => {
            if number_literal(&name) {
                report_and_stop(
                    turtle,
                    Diagnostic::text(DiagnosticKind::NumberAsName, string_of(&name)),
                )
            } else {
                let mut arguments: Vec<Vec<char>> = Vec::new();
                arguments.push(copy_text(&value));
                assert(texts(arguments@) =~= seq![value@]);
                let task = start_evaluation(
                    turtle,
                    Purpose::Assign { name, raw: value },
                    &arguments,
                    1,
                );
                (task, None)
            }
        },
        Statement::Call { name, arguments, block } => {
            match lookup(&name) {
                None => report_and_stop(
                    turtle,
                    Diagnostic::text(DiagnosticKind::Unknown, string_of(&name)),
                ),
                Some(kind) => {
                    if arguments.len() < arguments_needed(kind) {
                        report_and_stop(
                            turtle,
                            Diagnostic::text(DiagnosticKind::Malformed, string_of(statement)),
                        )
                    } else {
                        begin_call(turtle, kind, &arguments, &block)
                    }
                },
            }
        },
    }
}

/// The value of a step, NaN where the step has none.
pub fn value_of(values: &Vec<Number>, id: usize) -> (r: Number)
    ensures
        r == value_at(values@, id as int),
{
    if id < values.len() {
        values[id]
    } else {
        Number::nan()
    }
}

/// The value of the `k`-th expression of a plan.
pub fn result_of(results: &Vec<usize>, values: &Vec<Number>, k: usize) -> (r: Number)
    ensures
        r == result_at(positions(results@), values@, k as int),
{
    if k < results.len() {
        value_of(values, results[k])
    } else {
        Number::nan()
    }
}

/// Takes four channel values for the pen colour, if each of them is an
/// integer from 0 to 255. The colour is stored with its opacity multiplied
/// in: a fully opaque colour is stored as it is given, a fully transparent
/// one as transparent black.
pub fn set_channels(turtle: &mut Turtle, r: Number, g: Number, b: Number, a: Number)
    ensures
        final(turtle)@ == with_channels(old(turtle)@, r, g, b, a),
        old(turtle).well_formed() ==> final(turtle).well_formed(),
        r.channel_of() is Some && g.channel_of() is Some && b.channel_of() is Some
            && a.channel_of() is Some ==> final(turtle).pencolor.a == a.channel_of()->0,
        r.channel_of() is Some && g.channel_of() is Some && b.channel_of() is Some
            && a.channel_of() == Some(255u8) ==> final(turtle).pencolor == (Color {
            r: r.channel_of()->0,
            g: g.channel_of()->0,
            b: b.channel_of()->0,
            a: 255,
        }),
        r.channel_of() is Some && g.channel_of() is Some && b.channel_of() is Some
            && a.channel_of() == Some(0u8) ==> final(turtle).pencolor == (Color {
            r: 0,
            g: 0,
            b: 0,
            a: 0,
        }),
{
    let red = match r.channel() {
        Some(c) => c,
        None => {
            turtle.report(Diagnostic::number(DiagnosticKind::BadChannel, r));
            return ;
        },
    };
    let green = match g.channel() {
        Some(c) => c,
        None => {
            turtle.report(Diagnostic::number(DiagnosticKind::BadChannel, g));
            return ;
        },
    };
    let blue = match b.channel() {
        Some(c) => c,
        None => {
            turtle.report(Diagnostic::number(DiagnosticKind::BadChannel, b));
            return ;
        },
    };
    let alpha = match a.channel() {
        Some(c) => c,
        None => {
            turtle.report(Diagnostic::number(DiagnosticKind::BadChannel, a));
            return ;
        },
    };
    turtle.set_pencolor(from_unmultiplied(red, green, blue, alpha));
}

/// Assigns `value`, given as the text `raw`, to the variable `name`.
pub fn assign(turtle: &mut Turtle, name: &Vec<char>, raw: &Vec<char>, value: Number)
    ensures
        final(turtle)@ == assigned(old(turtle)@, name@, raw@, value),
        old(turtle).well_formed() ==> final(turtle).well_formed(),
{
    let key = string_of(name);
    let read_only = match turtle.variables.get(key.as_str()) {
        Some(variable) => !variable.writable,
        None => false,
    };
    if read_only {
        turtle.report(Diagnostic::text(DiagnosticKind::ReadOnly, key));
    } else {
        turtle.set_variable(
            key,
            Variable {
                raw_value: string_of(raw),
                variable_type: VariableTypes::Number { value },
                writable: true,
            },
        );
    }
}

/// Binds the loop variable `name` to `index`, whose binary64 form is `value`.
pub fn bind(turtle: &mut Turtle, name: &Vec<char>, index: i64, value: Number)
    ensures
        final(turtle)@ == bound(old(turtle)@, name@, index as int, value),
        old(turtle).well_formed() ==> final(turtle).well_formed(),
{
    let text = decimal(index);
    turtle.set_variable(
        string_of(name),
        Variable {
            raw_value: string_of(&text),
            variable_type: VariableTypes::Number { value },
            writable: false,
        },
    );
}

/// Does what a statement does once the values of its expressions are
/// known, and returns the task that is left.
pub fn conclude_statement(
    turtle: &mut Turtle,
    purpose: &Purpose,
    results: &Vec<usize>,
    values: &Vec<Number>,
) -> (task: Task)
    ensures
        (final(turtle)@, task@) == conclude(
            old(turtle)@,
            purpose@,
            positions(results@),
            values@,
        ),
        old(turtle).well_formed() ==> final(turtle).well_formed(),
{
    let first = result_of(results, values, 0);
    match purpose {
        Purpose::Assign { name, raw } => {
            assign(turtle, name, raw, first);
            Task::Idle
        },
        Purpose::Forward => {
            if first.finite_value() {
                Task::Moving { distance: first }
            } else {
                turtle.report(Diagnostic::number(DiagnosticKind::BadDistance, first));
                Task::Idle
            }
        },
        Purpose::RotateRight => {
            if first.finite_value() {
                Task::Turning { degrees: first, clockwise: true }
            } else {
                turtle.report(Diagnostic::number(DiagnosticKind::BadAngle, first));
                Task::Idle
            }
        },
        Purpose::RotateLeft => {
            if first.finite_value() {
                Task::Turning { degrees: first, clockwise: false }
            } else {
                turtle.report(Diagnostic::number(DiagnosticKind::BadAngle, first));
                Task::Idle
            }
        },
        Purpose::PenWidth => {
            if first.finite_value() {
                Task::Narrowing { value: first }
            } else {
                turtle.report(Diagnostic::number(DiagnosticKind::BadWidth, first));
                Task::Idle
            }
        },
        Purpose::PenColor => {
            let g = result_of(results, values, 1);
            let b = result_of(results, values, 2);
            let a = result_of(results, values, 3);
            set_channels(turtle, first, g, b, a);
            Task::Idle
        },
    }
}

impl Session {
    /// A session for the given turtle, with no program.
    pub fn new(turtle: Turtle) -> (s: Session)
        ensures
            s@ == (SessionView {
                turtle: turtle@,
                frames: Seq::empty(),
                task: TaskView::Idle,
                budget: STEP_BUDGET as int,
            }),
    {
        let s = Session { turtle, frames: Vec::new(), task: Task::Idle, budget: STEP_BUDGET };
        assert(s@.frames =~= Seq::<FrameView>::empty());
        s
    }

    /// Tells whether nothing is left to run.
    pub fn is_finished(&self) -> (b: bool)
        ensures
            b == (self@.task is Idle && self@.frames.len() == 0),
    {
        self.frames.len() == 0 && match self.task {
            Task::Idle => true,
            _ => false,
        }
    }

    fn open(&mut self, frame: Frame)
        ensures
            final(self)@ == (SessionView {
                frames: old(self)@.frames.push(frame@),
                ..old(self)@
            }),
    {
        self.frames.push(frame);
        assert(self@.frames =~= old(self)@.frames.push(frame@));
    }

    fn close(&mut self) -> (frame: Frame)
        requires
            old(self).frames.len() > 0,
        ensures
            frame@ == old(self)@.frames.last(),
            final(self)@ == (SessionView {
                frames: old(self)@.frames.drop_last(),
                ..old(self)@
            }),
    {
        let frame = self.frames.pop().unwrap();
        assert(self@.frames =~= old(self)@.frames.drop_last());
        frame
    }

    fn give_up(&mut self) -> (request: Request)
        ensures
            (final(self)@, request@) == exhausted(old(self)@),
    {
        self.turtle.report(Diagnostic::text(DiagnosticKind::Exhausted, String::new()));
        self.frames.clear();
        assert(self@.frames =~= Seq::<FrameView>::empty());
        Request::Finished
    }

    fn fetch_next(&mut self) -> (request: Request)
        requires
            old(self)@.task is Idle,
        ensures
            (final(self)@, request@) == fetch(old(self)@),
    {
        if self.frames.len() == 0 {
            return Request::Finished;
        }
        let frame = self.close();
        match frame {
            Frame::Block { statements, next } => {
                if next < statements.len() {
                    if self.budget == 0 {
                        self.open(Frame::Block { statements, next });
                        assert(self@ == old(self)@) by {
                            assert(self@.frames =~= old(self)@.frames);
                        }
                        return self.give_up();
                    }
                    assert(texts(statements@)[next as int] == statements@[next as int]@);
                    let (task, opened) = begin_statement(&mut self.turtle, &statements[next]);
                    self.open(Frame::Block { statements, next: next + 1 });
                    match opened {
                        Some(f) => {
                            self.open(f);
                        },
                        None => {},
                    }
                    self.task = task;
                    self.budget = self.budget - 1;
                }
                Request::Proceed
            },
            Frame::Loop { name, next, end, body } => {
                if next < end {
                    if self.budget == 0 {
                        self.open(Frame::Loop { name, next, end, body });
                        assert(self@ == old(self)@) by {
                            assert(self@.frames =~= old(self)@.frames);
                        }
                        return self.give_up();
                    }
                    self.task = Task::Binding {
                        name: copy_text(&name),
                        index: next,
                        body: Some(copy_text(&body)),
                    };
                    self.open(Frame::Loop { name, next: next + 1, end, body });
                    self.budget = self.budget - 1;
                }
                Request::Proceed
            },
        }
    }

    fn gather_next(
        &mut self,
        purpose: Purpose,
        steps: Vec<Step>,
        results: Vec<usize>,
        values: Vec<Number>,
        reply: Reply,
    ) -> (request: Request)
        ensures
            (final(self)@, request@) == gather(
                (SessionView {
                    task: TaskView::Evaluating {
                        purpose: purpose@,
                        steps: step_views(steps@),
                        results: positions(results@),
                        values: values@,
                    },
                    ..old(self)@
                }),
                purpose@,
                step_views(steps@),
                positions(results@),
                values@,
                reply,
            ),
            old(self).turtle.well_formed() ==> final(self).turtle.well_formed(),
    {
        let mut values = values;
        if values.len() >= steps.len() {
            self.task = conclude_statement(&mut self.turtle, &purpose, &results, &values);
            return Request::Proceed;
        }
        let at = values.len();
        assert(step_views(steps@)[at as int] == steps@[at as int]@);
        let mut request = Request::Proceed;
        match &steps[at] {
            Step::Constant(n) => {
                values.push(*n);
            },
            Step::Literal(text) => {
                match reply {
                    Reply::Number(v) => {
                        values.push(v);
                    },
                    _ => {
                        request = Request::Literal(text.clone());
                    },
                }
            },
            Step::Binary(op, l, r) => {
                match reply {
                    Reply::Number(v) => {
                        values.push(v);
                    },
                    _ => {
                        request = Request::Arithmetic(
                            *op,
                            value_of(&values, *l),
                            value_of(&values, *r),
                        );
                    },
                }
            },
        }
        self.task = Task::Evaluating { purpose, steps, results, values };
        request
    }

    /// Makes one transition. `reply` is the host's answer to the request of
    /// the transition before, or `Nothing` if that asked for none. A
    /// reply that does not answer the open request changes nothing, and the
    /// request is made again.
    pub fn advance(&mut self, reply: Reply) -> (request: Request)
        ensures
            (final(self)@, request@) == advanced(old(self)@, reply),
            old(self).turtle.well_formed() ==> final(self).turtle.well_formed(),
    {
        let mut task = Task::Idle;
        core::mem::swap(&mut self.task, &mut task);
        match task {
            Task::Idle => {
                proof {
                    if self.turtle.well_formed() {
                        lemma_fetch_keeps_segments(self@);
                    }
                }
                self.fetch_next()
            },
            Task::Evaluating { purpose, steps, results, values } => self.gather_next(
                purpose,
                steps,
                results,
                values,
                reply,
            ),
            Task::Moving { distance } => {
                match reply {
                    Reply::Point(p) => {
                        self.turtle.move_to(p);
                        Request::Proceed
                    },
                    _ => {
                        self.task = Task::Moving { distance };
                        Request::Advance {
                            position: self.turtle.position,
                            heading: self.turtle.angle,
                            distance,
                        }
                    },
                }
            },
            Task::Turning { degrees, clockwise } => {
                match reply {
                    Reply::Single(a) => {
                        self.turtle.turn_to(a);
                        Request::Proceed
                    },
                    _ => {
                        self.task = Task::Turning { degrees, clockwise };
                        Request::Turn { heading: self.turtle.angle, degrees, clockwise }
                    },
                }
            },
            Task::Narrowing { value } => {
                match reply {
                    Reply::Single(w) => {
                        self.turtle.set_penwidth(w);
                        Request::Proceed
                    },
                    _ => {
                        self.task = Task::Narrowing { value };
                        Request::Narrow(value)
                    },
                }
            },
            Task::Binding { name, index, body } => {
                match reply {
                    Reply::Number(v) => {
                        bind(&mut self.turtle, &name, index, v);
                        match body {
                            Some(b) => {
                                let statements = chain(&b);
                                self.open(Frame::Block { statements, next: 0 });
                            },
                            None => {},
                        }
                        Request::Proceed
                    },
                    _ => {
                        self.task = Task::Binding { name, index, body };
                        Request::Integer(index)
                    },
                }
            },
        }
    }
}

/// Puts the program `commandstring` on top of what the session runs and
/// gives the session the full budget. The program runs by transitions.
pub fn execute_command(commandstring: &str, session: &mut Session)
    ensures
        final(session)@ == loaded(old(session)@, commandstring@),
{
    let text = chars_of(commandstring);
    let statements = chain(&text);
    session.open(Frame::Block { statements, next: 0 });
    session.budget = STEP_BUDGET;
}

/// The start of a statement leaves the segments of the turtle, their
/// colours and their widths equally many.
pub proof fn lemma_begin_keeps_segments(turtle: TurtleView, statement: Seq<char>)
    requires
        turtle.well_formed(),
    ensures
        begin(turtle, statement).turtle.well_formed(),
{
}

/// The conclusion of a statement leaves the segments of the turtle, their
/// colours and their widths equally many.
pub proof fn lemma_conclude_keeps_segments(
    turtle: TurtleView,
    purpose: PurposeView,
    results: Seq<int>,
    values: Seq<Number>,
)
    requires
        turtle.well_formed(),
    ensures
        conclude(turtle, purpose, results, values).0.well_formed(),
{
}

/// A transition between two statements leaves the segments of the turtle,
/// their colours and their widths equally many.
pub proof fn lemma_fetch_keeps_segments(s: SessionView)
    requires
        s.turtle.well_formed(),
    ensures
        fetch(s).0.turtle.well_formed(),
{
    if s.frames.len() > 0 {
        match s.frames.last() {
            FrameView::Block { statements, next } => {
                if 0 <= next < statements.len() {
                    lemma_begin_keeps_segments(s.turtle, statements[next]);
                }
            },
            _ => {},
        }
    }
}

/// Whatever state a session is in and whatever the host replies, a
/// transition leaves the segments of the turtle, their colours and their
/// widths equally many.
pub proof fn lemma_advance_keeps_segments(s: SessionView, reply: Reply)
    requires
        s.turtle.well_formed(),
    ensures
        advanced(s, reply).0.turtle.well_formed(),
{
    match s.task {
        TaskView::Idle => {
            lemma_fetch_keeps_segments(s);
        },
        TaskView::Evaluating { purpose, steps, results, values } => {
            lemma_conclude_keeps_segments(s.turtle, purpose, results, values);
        },
        _ => {},
    }
}

/// A colour with a channel that is not an integer from 0 to 255 is not
/// taken: the turtle keeps its pen and gets no segment, and its log gains
/// exactly one entry.
pub proof fn lemma_bad_channel_changes_nothing(
    turtle: TurtleView,
    r: Number,
    g: Number,
    b: Number,
    a: Number,
)
    requires
        r.channel_of() is None || g.channel_of() is None || b.channel_of() is None
            || a.channel_of() is None,
    ensures
        with_channels(turtle, r, g, b, a) == (TurtleView {
            history: with_channels(turtle, r, g, b, a).history,
            ..turtle
        }),
        with_channels(turtle, r, g, b, a).history.len() == turtle.history.len() + 1,
        with_channels(turtle, r, g, b, a).history.drop_last() == turtle.history,
        with_channels(turtle, r, g, b, a).history.last().kind == DiagnosticKind::BadChannel,
{
    assert(with_channels(turtle, r, g, b, a).history.drop_last() =~= turtle.history);
}

/// A colour whose channels are all integers from 0 to 255 is taken, and a
/// new, empty segment is opened for it; the log stays as it is.
pub proof fn lemma_good_channels_open_a_segment(
    turtle: TurtleView,
    r: Number,
    g: Number,
    b: Number,
    a: Number,
)
    requires
        r.channel_of() is Some,
        g.channel_of() is Some,
        b.channel_of() is Some,
        a.channel_of() is Some,
    ensures
        with_channels(turtle, r, g, b, a).history == turtle.history,
        with_channels(turtle, r, g, b, a).path == turtle.path.push(Seq::empty()),
        with_channels(turtle, r, g, b, a).path_color == turtle.path_color.push(
            with_channels(turtle, r, g, b, a).pencolor,
        ),
        with_channels(turtle, r, g, b, a).path_width == turtle.path_width.push(turtle.penwidth),
{
}

/// A loop whose first bound is above its second makes no round: the
/// statement is over at once, no frame is opened, the variable is not
/// bound, and the log gains exactly one entry.
pub proof fn lemma_repeat_needs_ordered_bounds(
    turtle: TurtleView,
    arguments: Seq<Seq<char>>,
    block: Option<Seq<char>>,
)
    requires
        integer_of(arguments[1]) is Some,
        integer_of(arguments[2]) is Some,
        integer_of(arguments[1])->0 > integer_of(arguments[2])->0,
    ensures
        begin_repeat(turtle, arguments, block).task is Idle,
        begin_repeat(turtle, arguments, block).frame is None,
        begin_repeat(turtle, arguments, block).turtle == (TurtleView {
            history: turtle.history.push(
                about_two(DiagnosticKind::EmptyRange, arguments[1], arguments[2]),
            ),
            ..turtle
        }),
{
}

/// A variable that was assigned stands for its value: once `name` has been
/// given `value`, the expression `name` is planned as one step that holds
/// that value, and nothing is reported.
pub proof fn lemma_assigned_variable_stands_for_its_value(
    turtle: TurtleView,
    name: Seq<char>,
    raw: Seq<char>,
    value: Number,
    draft: Draft,
    fuel: nat,
)
    requires
        crate::arithmetic::is_plain(name),
        turtle.variables.contains_key(name) ==> turtle.variables[name].writable,
    ensures
        compile(name, assigned(turtle, name, raw, value).variables, draft, fuel)
            == crate::arithmetic::emit(draft, StepView::Constant(value)),
{
    crate::arithmetic::lemma_variable_is_its_value(
        name,
        assigned(turtle, name, raw, value).variables,
        draft,
        fuel,
    );
}

/// One round of a loop. A session that is between two statements, inside a
/// loop that has rounds left, asks for the binary64 form of the next index.
/// With the answer it binds the loop variable to that index, so that no
/// assignment can change it, moves the loop on by one, and puts the
/// statements of the body on top of the program.
pub proof fn lemma_loop_round(s: SessionView, value: Number)
    requires
        s.task is Idle,
        s.frames.len() > 0,
        s.budget > 0,
        s.frames.last() is Loop,
        s.frames.last()->Loop_next < s.frames.last()->Loop_end,
    ensures
        ({
            let name = s.frames.last()->Loop_name;
            let next = s.frames.last()->Loop_next;
            let end = s.frames.last()->Loop_end;
            let body = s.frames.last()->Loop_body;
            let asking = advanced(s, Reply::Nothing).0;
            let after = advanced(asking, Reply::Number(value)).0;
            &&& advanced(asking, Reply::Nothing) == (asking, RequestView::Integer(next))
            &&& after.task is Idle
            &&& after.turtle == bound(s.turtle, name, next, value)
            &&& after.turtle.variables[name] == (VariableView {
                raw_value: decimal_text(next),
                variable_type: VariableTypes::Number { value },
                writable: false,
            })
            &&& after.frames == s.frames.drop_last().push(
                FrameView::Loop { name, next: next + 1, end, body },
            ).push(FrameView::Block { statements: statements_of(body), next: 0 })
        }),
{
}

/// A loop that has no round left is over: the session leaves it and goes
/// on with what stands after it, and the turtle stays as it is.
pub proof fn lemma_loop_end(s: SessionView)
    requires
        s.task is Idle,
        s.frames.len() > 0,
        s.budget > 0,
        s.frames.last() is Loop,
        s.frames.last()->Loop_next >= s.frames.last()->Loop_end,
    ensures
        advanced(s, Reply::Nothing) == (
            SessionView { frames: s.frames.drop_last(), ..s },
            RequestView::Proceed,
        ),
{
}

/// A move that is not finite is not made: no place is asked of the host,
/// the turtle stays where it is, and the log gains exactly one entry.
pub proof fn lemma_bad_distance_changes_nothing(
    turtle: TurtleView,
    results: Seq<int>,
    values: Seq<Number>,
)
    requires
        !result_at(results, values, 0).is_finite(),
    ensures
        conclude(turtle, PurposeView::Forward, results, values) == (
            turtle.with_report(
                about_value(DiagnosticKind::BadDistance, result_at(results, values, 0)),
            ),
            TaskView::Idle,
        ),
{
}

/// A move goes where the host says. A session that has a finite distance
/// to walk asks the host for the place that the turtle reaches from where
/// it stands, along its heading, over that distance. The place that the
/// host answers becomes the turtle's position; with the pen down the last
/// segment gains the place left and the place reached.
pub proof fn lemma_move_goes_where_the_host_says(s: SessionView, target: Point)
    requires
        s.task is Moving,
    ensures
        advanced(s, Reply::Nothing) == (
            s,
            RequestView::Advance {
                position: s.turtle.position,
                heading: s.turtle.angle,
                distance: s.task->Moving_distance,
            },
        ),
        advanced(s, Reply::Point(target)).0 == (SessionView {
            turtle: s.turtle.moved_to(target),
            task: TaskView::Idle,
            ..s
        }),
        advanced(s, Reply::Point(target)).0.turtle.position == target,
        !s.turtle.pen_up && s.turtle.path.len() > 0 ==> advanced(
            s,
            Reply::Point(target),
        ).0.turtle.path.last() == s.turtle.path.last() + seq![s.turtle.position, target],
{
    if !s.turtle.pen_up && s.turtle.path.len() > 0 {
        crate::turtle::lemma_move_draws_two_points(s.turtle, target);
    }
}

} // verus!
