//! Arithmetic expressions.
//!
//! An expression is a text of operands joined by `+ - * / : %`. Planning one
//! turns it into a [`Plan`]: a list of steps, each a known number, a literal
//! for the host to read, or one operation on the results of two earlier
//! steps. The order of the steps is the order in which the operators bind:
//! every `*` from left to right, then every `/`, every `:`, every `%`, and
//! last the `+` and `-` from left to right.

use vstd::prelude::*;
use vstd::hash_map::StringHashMap;
use crate::commands::{variable_views, Variable, VariableView};
use crate::diagnostics::{about, entries, Diagnostic, DiagnosticKind, DiagnosticView};
use crate::number::{is_number_literal, number_literal, Number};
use crate::parsing::{
    is_whitespace,
    chars_of,
    contains_char,
    copy_text,
    find_first,
    find_last,
    first_index,
    last_index,
    lemma_first_index,
    lemma_last_index,
    slice,
    string_of,
    strip_whitespace,
    texts,
    without_whitespace,
};
use crate::turtle::{Turtle, TurtleView};

verus! {

/// The operators of the expression language.
#[derive(Clone, Copy, Debug, PartialEq, Eq, Structural)]
pub enum Operator {
    /// `*`
    Multiply,
    /// `/`: division
    Divide,
    /// `:`: the quotient rounded down to an integer
    Quotient,
    /// `%`: the remainder of the division
    Remainder,
    /// `+`
    Add,
    /// `-`
    Subtract,
}

/// The rounds in which the operators are applied, first to last.
#[derive(Clone, Copy, Debug, PartialEq, Eq, Structural)]
pub enum Tier {
    Product,
    Ratio,
    Quotient,
    Remainder,
    Sum,
}

/// The operator that a character stands for.
pub open spec fn operator_of(c: char) -> Option<Operator> {
    if c == '*' {
        Some(Operator::Multiply)
    } else if c == '/' {
        Some(Operator::Divide)
    } else if c == ':' {
        Some(Operator::Quotient)
    } else if c == '%' {
        Some(Operator::Remainder)
    } else if c == '+' {
        Some(Operator::Add)
    } else if c == '-' {
        Some(Operator::Subtract)
    } else {
        None
    }
}

/// The round in which an operator is applied.
pub open spec fn tier_of(op: Operator) -> Tier {
    match op {
        Operator::Multiply => Tier::Product,
        Operator::Divide => Tier::Ratio,
        Operator::Quotient => Tier::Quotient,
        Operator::Remainder => Tier::Remainder,
        Operator::Add => Tier::Sum,
        Operator::Subtract => Tier::Sum,
    }
}

/// One step of a plan.
#[derive(Debug)]
pub enum Step {
    /// A number that is known already.
    Constant(Number),
    /// A literal; the host reads its value.
    Literal(String),
    /// An operation on the results of two earlier steps, given by their
    /// positions in the plan.
    Binary(Operator, usize, usize),
}

/// A step as a mathematical value.
pub ghost enum StepView {
    Constant(Number),
    Literal(Seq<char>),
    Binary(Operator, int, int),
}

impl View for Step {
    type V = StepView;

    open spec fn view(&self) -> StepView {
        match self {
            Step::Constant(n) => StepView::Constant(*n),
            Step::Literal(s) => StepView::Literal(s@),
            Step::Binary(op, l, r) => StepView::Binary(*op, *l as int, *r as int),
        }
    }
}

/// The steps of a list as mathematical values.
pub open spec fn step_views(steps: Seq<Step>) -> Seq<StepView> {
    Seq::new(steps.len(), |i: int| steps[i]@)
}

/// Every operation takes its operands from earlier steps.
pub open spec fn well_ordered(steps: Seq<StepView>) -> bool {
    forall|i: int|
        0 <= i < steps.len() ==> (#[trigger] steps[i] matches StepView::Binary(_, l, r) ==> 0 <= l
            < i && 0 <= r < i)
}

/// What the scan of an expression has found so far.
pub ghost struct Scan {
    /// The operands that are complete.
    pub tokens: Seq<Seq<char>>,
    /// The operators between them.
    pub operators: Seq<Operator>,
    /// The operand that is being read.
    pub current: Seq<char>,
    /// How many brackets are open.
    pub depth: int,
}

/// Scans an expression from left to right. An operator outside all brackets
/// ends the operand before it. Brackets belong to their operand, as do the
/// operators between them. `#` ends an operand without an operator.
pub open spec fn scan(s: Seq<char>) -> Scan
    decreases s.len(),
{
    if s.len() == 0 {
        Scan { tokens: Seq::empty(), operators: Seq::empty(), current: Seq::empty(), depth: 0 }
    } else {
        let p = scan(s.drop_last());
        let c = s.last();
        if operator_of(c) is Some && p.depth == 0 {
            Scan {
                tokens: p.tokens.push(p.current),
                operators: p.operators.push(operator_of(c)->0),
                current: Seq::empty(),
                depth: p.depth,
            }
        } else if c == '(' {
            Scan { current: p.current.push(c), depth: p.depth + 1, ..p }
        } else if c == ')' {
            Scan { current: p.current.push(c), depth: p.depth - 1, ..p }
        } else if c == '#' {
            Scan { tokens: p.tokens.push(p.current), current: Seq::empty(), ..p }
        } else {
            Scan { current: p.current.push(c), ..p }
        }
    }
}

/// The operands of an expression, in order.
pub open spec fn tokens_of(s: Seq<char>) -> Seq<Seq<char>> {
    scan(s).tokens.push(scan(s).current)
}

/// The operators of an expression, in order.
pub open spec fn operators_of(s: Seq<char>) -> Seq<Operator> {
    scan(s).operators
}

/// An operand on its way through the rounds.
pub ghost enum Operand {
    /// A text that has not been looked at yet.
    Pending(Seq<char>),
    /// The result of a step of the plan.
    Ready(int),
}

/// A plan that is being written, and the log beside it.
pub ghost struct Draft {
    pub steps: Seq<StepView>,
    pub log: Seq<DiagnosticView>,
}

/// A draft, and the step that holds the result asked for.
pub ghost struct Resolved {
    pub draft: Draft,
    pub id: int,
}

/// The operands and operators that a round leaves, and the draft after it.
pub ghost struct Swept {
    pub stream: Seq<Operand>,
    pub operators: Seq<Operator>,
    pub draft: Draft,
}

/// Adds a step to the draft.
pub open spec fn emit(draft: Draft, step: StepView) -> Resolved {
    Resolved {
        draft: Draft { steps: draft.steps.push(step), log: draft.log },
        id: draft.steps.len() as int,
    }
}

/// Gives up on an operand: its value is NaN, and the log says so.
pub open spec fn give_up(draft: Draft, token: Seq<char>) -> Resolved {
    Resolved {
        draft: Draft {
            steps: draft.steps.push(StepView::Constant(Number { bits: 0x7FF8_0000_0000_0000 })),
            log: draft.log.push(about(DiagnosticKind::Unresolved, token)),
        },
        id: draft.steps.len() as int,
    }
}

/// What stands between the first `(` of an operand and the last `)` after it.
pub open spec fn bracket_body(token: Seq<char>) -> Option<Seq<char>> {
    let open = first_index(token, '(');
    if open >= token.len() {
        None
    } else {
        let rest = token.skip(open + 1);
        let close = last_index(rest, ')');
        if close < 0 {
            None
        } else {
            Some(rest.take(close))
        }
    }
}

/// Plans one operand. One with brackets is planned as the expression
/// between its outermost brackets; the name of a variable stands for the
/// variable's value; a number literal is left to the host; anything else
/// is given up. `fuel` bounds how deep brackets may nest.
pub open spec fn resolve(
    token: Seq<char>,
    variables: Map<Seq<char>, VariableView>,
    draft: Draft,
    fuel: nat,
) -> Resolved
    decreases fuel, 0nat, 0nat,
{
    if token.contains('(') || token.contains(')') {
        if bracket_body(token) is Some && fuel > 0 {
            compile(bracket_body(token)->0, variables, draft, (fuel - 1) as nat)
        } else {
            give_up(draft, token)
        }
    } else if variables.contains_key(token) {
        emit(draft, StepView::Constant(variables[token].variable_type.value()))
    } else if is_number_literal(token) {
        emit(draft, StepView::Literal(token))
    } else {
        give_up(draft, token)
    }
}

/// The step that holds an operand's value, planning the operand if need be.
pub open spec fn settle(
    operand: Operand,
    variables: Map<Seq<char>, VariableView>,
    draft: Draft,
    fuel: nat,
) -> Resolved
    decreases fuel, 0nat, 1nat,
{
    match operand {
        Operand::Ready(id) => Resolved { draft, id },
        Operand::Pending(token) => resolve(token, variables, draft, fuel),
    }
}

/// One round, from `carry` on: every operator of the round joins the operand
/// to its left with the one to its right; the others stay, with their
/// operands.
pub open spec fn sweep(
    carry: Operand,
    stream: Seq<Operand>,
    operators: Seq<Operator>,
    tier: Tier,
    variables: Map<Seq<char>, VariableView>,
    draft: Draft,
    fuel: nat,
) -> Swept
    decreases fuel, 1nat, operators.len(),
{
    if operators.len() == 0 || stream.len() == 0 {
        Swept { stream: seq![carry] + stream, operators, draft }
    } else if tier_of(operators[0]) == tier {
        let left = settle(carry, variables, draft, fuel);
        let right = settle(stream[0], variables, left.draft, fuel);
        let joined = emit(right.draft, StepView::Binary(operators[0], left.id, right.id));
        sweep(
            Operand::Ready(joined.id),
            stream.skip(1),
            operators.skip(1),
            tier,
            variables,
            joined.draft,
            fuel,
        )
    } else {
        let rest = sweep(stream[0], stream.skip(1), operators.skip(1), tier, variables, draft, fuel);
        Swept {
            stream: seq![carry] + rest.stream,
            operators: seq![operators[0]] + rest.operators,
            draft: rest.draft,
        }
    }
}

/// One round over all operands.
pub open spec fn round(
    before: Swept,
    tier: Tier,
    variables: Map<Seq<char>, VariableView>,
    fuel: nat,
) -> Swept
    decreases fuel, 1nat, before.operators.len() + 1,
{
    if before.stream.len() == 0 {
        before
    } else {
        sweep(
            before.stream[0],
            before.stream.skip(1),
            before.operators,
            tier,
            variables,
            before.draft,
            fuel,
        )
    }
}

/// The operands of a scanned expression, none of them looked at yet.
pub open spec fn pending(tokens: Seq<Seq<char>>) -> Seq<Operand> {
    Seq::new(tokens.len(), |i: int| Operand::Pending(tokens[i]))
}

/// Plans an expression: whitespace is dropped, the text is scanned, the five
/// rounds are made in order, and the operand that is left is settled.
pub open spec fn compile(
    text: Seq<char>,
    variables: Map<Seq<char>, VariableView>,
    draft: Draft,
    fuel: nat,
) -> Resolved
    decreases fuel, 2nat, 0nat,
{
    let s = without_whitespace(text);
    let start = Swept { stream: pending(tokens_of(s)), operators: operators_of(s), draft };
    let a = round(start, Tier::Product, variables, fuel);
    let b = round(a, Tier::Ratio, variables, fuel);
    let c = round(b, Tier::Quotient, variables, fuel);
    let d = round(c, Tier::Remainder, variables, fuel);
    let e = round(d, Tier::Sum, variables, fuel);
    if e.stream.len() == 0 {
        give_up(e.draft, text)
    } else {
        settle(e.stream[0], variables, e.draft, fuel)
    }
}

/// What planning `text` yields, starting from an empty plan and the given log.
pub open spec fn planned(
    text: Seq<char>,
    variables: Map<Seq<char>, VariableView>,
    log: Seq<DiagnosticView>,
) -> Resolved {
    compile(text, variables, Draft { steps: Seq::empty(), log }, text.len())
}

/// The operator that a character stands for.
pub fn operator_from(c: char) -> (r: Option<Operator>)
    ensures
        r == operator_of(c),
{
    if c == '*' {
        Some(Operator::Multiply)
    } else if c == '/' {
        Some(Operator::Divide)
    } else if c == ':' {
        Some(Operator::Quotient)
    } else if c == '%' {
        Some(Operator::Remainder)
    } else if c == '+' {
        Some(Operator::Add)
    } else if c == '-' {
        Some(Operator::Subtract)
    } else {
        None
    }
}

/// The round in which an operator is applied.
pub fn tier(op: Operator) -> (r: Tier)
    ensures
        r == tier_of(op),
{
    match op {
        Operator::Multiply => Tier::Product,
        Operator::Divide => Tier::Ratio,
        Operator::Quotient => Tier::Quotient,
        Operator::Remainder => Tier::Remainder,
        Operator::Add => Tier::Sum,
        Operator::Subtract => Tier::Sum,
    }
}

/// Cuts an expression into its operands and the operators between them.
pub fn tokenize(v: &Vec<char>) -> (r: (Vec<Vec<char>>, Vec<Operator>))
    ensures
        texts(r.0@) == tokens_of(v@),
        r.1@ == operators_of(v@),
{
    let mut tokens: Vec<Vec<char>> = Vec::new();
    let mut operators: Vec<Operator> = Vec::new();
    let mut current: Vec<char> = Vec::new();
    let mut depth: i128 = 0;
    let mut i: usize = 0;
    assert(texts(tokens@) =~= scan(v@.take(0)).tokens);
    while i < v.len()
        invariant
            i <= v.len(),
            texts(tokens@) == scan(v@.take(i as int)).tokens,
            operators@ == scan(v@.take(i as int)).operators,
            current@ == scan(v@.take(i as int)).current,
            depth == scan(v@.take(i as int)).depth,
            -(i as int) <= depth <= i,
        decreases v.len() - i,
    {
        assert(v@.take(i + 1).drop_last() == v@.take(i as int));
        let c = v[i];
        let ghost before = texts(tokens@);
        let op = operator_from(c);
        if op.is_some() && depth == 0 {
            operators.push(op.unwrap());
            tokens.push(current);
            assert(texts(tokens@) =~= before.push(current@));
            current = Vec::new();
        } else if c == '(' {
            current.push(c);
            depth = depth + 1;
        } else if c == ')' {
            current.push(c);
            depth = depth - 1;
        } else if c == '#' {
            tokens.push(current);
            assert(texts(tokens@) =~= before.push(current@));
            current = Vec::new();
        } else {
            current.push(c);
        }
        i += 1;
    }
    assert(v@.take(v.len() as int) == v@);
    let ghost before = texts(tokens@);
    tokens.push(current);
    assert(texts(tokens@) =~= before.push(current@));
    (tokens, operators)
}

/// An operand on its way through the rounds.
enum Slot {
    Pending(Vec<char>),
    Ready(usize),
}

impl Slot {
    spec fn model(&self) -> Operand {
        match self {
            Slot::Pending(t) => Operand::Pending(t@),
            Slot::Ready(id) => Operand::Ready(*id as int),
        }
    }
}

spec fn models(slots: Seq<Slot>) -> Seq<Operand> {
    Seq::new(slots.len(), |i: int| slots[i].model())
}

spec fn draft_of(steps: Seq<Step>, log: Seq<Diagnostic>) -> Draft {
    Draft { steps: step_views(steps), log: entries(log) }
}

fn copy_slot(slot: &Slot) -> (r: Slot)
    ensures
        r.model() == slot.model(),
{
    match slot {
        Slot::Pending(t) => Slot::Pending(copy_text(t)),
        Slot::Ready(id) => Slot::Ready(*id),
    }
}

/// `carry` followed by the slots from `at` on.
fn remaining_slots(carry: Slot, stream: &Vec<Slot>, at: usize) -> (r: Vec<Slot>)
    requires
        at <= stream.len(),
    ensures
        models(r@) == seq![carry.model()] + models(stream@).skip(at as int),
{
    let mut r: Vec<Slot> = Vec::new();
    r.push(carry);
    let mut i: usize = at;
    while i < stream.len()
        invariant
            at <= i <= stream.len(),
            r.len() == 1 + i - at,
            r@[0].model() == carry.model(),
            forall|k: int| 1 <= k < r.len() ==> (#[trigger] r@[k]).model() == stream@[at + k - 1].model(),
        decreases stream.len() - i,
    {
        r.push(copy_slot(&stream[i]));
        i += 1;
    }
    assert(models(r@) =~= seq![carry.model()] + models(stream@).skip(at as int));
    r
}

/// The operators from `from` on.
fn remaining_operators(operators: &Vec<Operator>, from: usize) -> (r: Vec<Operator>)
    requires
        from <= operators.len(),
    ensures
        r@ == operators@.skip(from as int),
{
    let mut r: Vec<Operator> = Vec::new();
    let mut i: usize = from;
    while i < operators.len()
        invariant
            from <= i <= operators.len(),
            r@ == operators@.subrange(from as int, i as int),
        decreases operators.len() - i,
    {
        r.push(operators[i]);
        assert(operators@.subrange(from as int, i + 1) == operators@.subrange(
            from as int,
            i as int,
        ).push(operators@[i as int]));
        i += 1;
    }
    assert(operators@.subrange(from as int, operators.len() as int) == operators@.skip(
        from as int,
    ));
    r
}

fn emit_step(step: Step, steps: &mut Vec<Step>, log: &Vec<Diagnostic>) -> (id: usize)
    ensures
        emit(draft_of(old(steps)@, log@), step@) == (Resolved {
            draft: draft_of(final(steps)@, log@),
            id: id as int,
        }),
{
    let id = steps.len();
    steps.push(step);
    assert(step_views(steps@) =~= step_views(old(steps)@).push(step@));
    id
}

fn give_up_on(token: &Vec<char>, steps: &mut Vec<Step>, log: &mut Vec<Diagnostic>) -> (id: usize)
    ensures
        give_up(draft_of(old(steps)@, old(log)@), token@) == (Resolved {
            draft: draft_of(final(steps)@, final(log)@),
            id: id as int,
        }),
{
    let id = steps.len();
    steps.push(Step::Constant(Number::nan()));
    log.push(Diagnostic::text(DiagnosticKind::Unresolved, string_of(token)));
    assert(step_views(steps@) =~= step_views(old(steps)@).push(
        StepView::Constant(Number { bits: 0x7FF8_0000_0000_0000 }),
    ));
    assert(entries(log@) =~= entries(old(log)@).push(about(DiagnosticKind::Unresolved, token@)));
    id
}

/// What stands between the first `(` of an operand and the last `)` after it.
pub fn body_of(token: &Vec<char>) -> (r: Option<Vec<char>>)
    ensures
        r is Some <==> bracket_body(token@) is Some,
        r is Some ==> r->0@ == bracket_body(token@)->0,
{
    proof {
        lemma_first_index(token@, '(');
    }
    match find_first(token, '(') {
        None => None,
        Some(open) => {
            assert(open < token.len());
            let rest = slice(token, open + 1, token.len());
            assert(rest@ == token@.skip(open + 1));
            proof {
                lemma_last_index(rest@, ')');
            }
            match find_last(&rest, ')') {
                None => None,
                Some(close) => Some(slice(&rest, 0, close)),
            }
        },
    }
}

fn resolve_token(
    token: &Vec<char>,
    variables: &StringHashMap<Variable>,
    steps: &mut Vec<Step>,
    log: &mut Vec<Diagnostic>,
    fuel: usize,
) -> (id: usize)
    ensures
        resolve(token@, variable_views(variables@), draft_of(old(steps)@, old(log)@), fuel as nat) == (Resolved {
            draft: draft_of(final(steps)@, final(log)@),
            id: id as int,
        }),
    decreases fuel, 0nat, 0nat,
{
    if contains_char(token, '(') || contains_char(token, ')') {
        if fuel > 0 {
            match body_of(token) {
                Some(inner) => {
                    return compile_text(&inner, variables, steps, log, fuel - 1);
                },
                None => {},
            }
        }
        give_up_on(token, steps, log)
    } else {
        let name = string_of(token);
        match variables.get(name.as_str()) {
            Some(variable) => emit_step(
                Step::Constant(variable.variable_type.get_value()),
                steps,
                log,
            ),
            None => {
                if number_literal(token) {
                    emit_step(Step::Literal(name), steps, log)
                } else {
                    give_up_on(token, steps, log)
                }
            },
        }
    }
}

fn settle_slot(
    slot: &Slot,
    variables: &StringHashMap<Variable>,
    steps: &mut Vec<Step>,
    log: &mut Vec<Diagnostic>,
    fuel: usize,
) -> (id: usize)
    ensures
        settle(slot.model(), variable_views(variables@), draft_of(old(steps)@, old(log)@), fuel as nat)
            == (Resolved { draft: draft_of(final(steps)@, final(log)@), id: id as int }),
    decreases fuel, 0nat, 1nat,
{
    match slot {
        Slot::Ready(id) => *id,
        Slot::Pending(token) => resolve_token(token, variables, steps, log, fuel),
    }
}

fn sweep_from(
    carry: Slot,
    stream: &Vec<Slot>,
    at: usize,
    operators: &Vec<Operator>,
    from: usize,
    round_tier: Tier,
    variables: &StringHashMap<Variable>,
    steps: &mut Vec<Step>,
    log: &mut Vec<Diagnostic>,
    fuel: usize,
) -> (r: (Vec<Slot>, Vec<Operator>))
    requires
        at <= stream.len(),
        from <= operators.len(),
    ensures
        sweep(
            carry.model(),
            models(stream@).skip(at as int),
            operators@.skip(from as int),
            round_tier,
            variable_views(variables@),
            draft_of(old(steps)@, old(log)@),
            fuel as nat,
        ) == (Swept {
            stream: models(r.0@),
            operators: r.1@,
            draft: draft_of(final(steps)@, final(log)@),
        }),
    decreases fuel, 1nat, operators.len() - from,
{
    let ghost rest_stream = models(stream@).skip(at as int);
    let ghost rest_operators = operators@.skip(from as int);
    if from == operators.len() || at == stream.len() {
        let s = remaining_slots(carry, stream, at);
        let o = remaining_operators(operators, from);
        return (s, o);
    }
    assert(rest_operators[0] == operators@[from as int]);
    assert(rest_stream[0] == stream@[at as int].model());
    assert(rest_stream.skip(1) =~= models(stream@).skip(at + 1));
    assert(rest_operators.skip(1) =~= operators@.skip(from + 1));
    let op = operators[from];
    if tier(op) == round_tier {
        let left = settle_slot(&carry, variables, steps, log, fuel);
        let right = settle_slot(&stream[at], variables, steps, log, fuel);
        let joined = emit_step(Step::Binary(op, left, right), steps, log);
        sweep_from(
            Slot::Ready(joined),
            stream,
            at + 1,
            operators,
            from + 1,
            round_tier,
            variables,
            steps,
            log,
            fuel,
        )
    } else {
        let next = copy_slot(&stream[at]);
        let mut rest = sweep_from(
            next,
            stream,
            at + 1,
            operators,
            from + 1,
            round_tier,
            variables,
            steps,
            log,
            fuel,
        );
        let ghost swept_stream = models(rest.0@);
        let ghost swept_operators = rest.1@;
        rest.0.insert(0, carry);
        rest.1.insert(0, op);
        assert(models(rest.0@) =~= seq![carry.model()] + swept_stream);
        assert(rest.1@ =~= seq![op] + swept_operators);
        rest
    }
}

fn round_over(
    stream: Vec<Slot>,
    operators: Vec<Operator>,
    round_tier: Tier,
    variables: &StringHashMap<Variable>,
    steps: &mut Vec<Step>,
    log: &mut Vec<Diagnostic>,
    fuel: usize,
) -> (r: (Vec<Slot>, Vec<Operator>))
    ensures
        round(
            Swept {
                stream: models(stream@),
                operators: operators@,
                draft: draft_of(old(steps)@, old(log)@),
            },
            round_tier,
            variable_views(variables@),
            fuel as nat,
        ) == (Swept {
            stream: models(r.0@),
            operators: r.1@,
            draft: draft_of(final(steps)@, final(log)@),
        }),
    decreases fuel, 1nat, operators.len() + 1,
{
    if stream.len() == 0 {
        return (stream, operators);
    }
    let first = copy_slot(&stream[0]);
    assert(operators@.skip(0) =~= operators@);
    sweep_from(first, &stream, 1, &operators, 0, round_tier, variables, steps, log, fuel)
}

fn compile_text(
    text: &Vec<char>,
    variables: &StringHashMap<Variable>,
    steps: &mut Vec<Step>,
    log: &mut Vec<Diagnostic>,
    fuel: usize,
) -> (id: usize)
    ensures
        compile(text@, variable_views(variables@), draft_of(old(steps)@, old(log)@), fuel as nat) == (Resolved {
            draft: draft_of(final(steps)@, final(log)@),
            id: id as int,
        }),
    decreases fuel, 2nat, 0nat,
{
    let stripped = strip_whitespace(text);
    let (tokens, operators) = tokenize(&stripped);
    let mut stream: Vec<Slot> = Vec::new();
    let mut i: usize = 0;
    while i < tokens.len()
        invariant
            i <= tokens.len(),
            stream.len() == i,
            forall|j: int| 0 <= j < i ==> (#[trigger] stream@[j]).model() == Operand::Pending(tokens@[j]@),
        decreases tokens.len() - i,
    {
        stream.push(Slot::Pending(copy_text(&tokens[i])));
        i += 1;
    }
    assert(models(stream@) =~= pending(texts(tokens@)));
    let (stream, operators) = round_over(stream, operators, Tier::Product, variables, steps, log, fuel);
    let (stream, operators) = round_over(stream, operators, Tier::Ratio, variables, steps, log, fuel);
    let (stream, operators) = round_over(
        stream,
        operators,
        Tier::Quotient,
        variables,
        steps,
        log,
        fuel,
    );
    let (stream, operators) = round_over(
        stream,
        operators,
        Tier::Remainder,
        variables,
        steps,
        log,
        fuel,
    );
    let (stream, operators) = round_over(stream, operators, Tier::Sum, variables, steps, log, fuel);
    if stream.len() == 0 {
        give_up_on(text, steps, log)
    } else {
        settle_slot(&stream[0], variables, steps, log, fuel)
    }
}

/// Plans the expression `text` with the variables of the turtle, adding its
/// steps to `steps`; the result is the step that holds the value. Every
/// operand that cannot be resolved is reported in the turtle's log.
pub fn plan_into(text: &Vec<char>, turtle: &mut Turtle, steps: &mut Vec<Step>) -> (id: usize)
    ensures
        compile(
            text@,
            old(turtle)@.variables,
            Draft { steps: step_views(old(steps)@), log: old(turtle)@.history },
            text@.len(),
        ) == (Resolved {
            draft: Draft { steps: step_views(final(steps)@), log: final(turtle)@.history },
            id: id as int,
        }),
        final(turtle)@ == (TurtleView { history: final(turtle)@.history, ..old(turtle)@ }),
{
    compile_text(text, &turtle.variables, steps, &mut turtle.command_history, text.len())
}

/// The plan of an expression: its steps, and the step whose result is the
/// value of the expression.
#[derive(Debug)]
pub struct Plan {
    pub steps: Vec<Step>,
    pub result: usize,
}

/// Plans the expression `input` with the variables of the turtle. Every
/// operand that cannot be resolved is reported in the turtle's log, in the
/// order in which the operands are needed; nothing else of the turtle changes.
pub fn parse_number_value(input: &str, turtle: &mut Turtle) -> (plan: Plan)
    ensures
        planned(input@, old(turtle)@.variables, old(turtle)@.history) == (Resolved {
            draft: Draft { steps: step_views(plan.steps@), log: final(turtle)@.history },
            id: plan.result as int,
        }),
        final(turtle)@ == (TurtleView { history: final(turtle)@.history, ..old(turtle)@ }),
        well_ordered(step_views(plan.steps@)),
        plan.result < plan.steps.len(),
{
    proof {
        lemma_plan_is_well_ordered(input@, turtle@.variables, turtle@.history);
    }
    let text = chars_of(input);
    let mut steps: Vec<Step> = Vec::new();
    assert(step_views(steps@) =~= Seq::<StepView>::empty());
    let result = plan_into(&text, turtle, &mut steps);
    Plan { steps, result }
}

/// Every operand that has a step has it among the first `n` steps.
pub open spec fn within(stream: Seq<Operand>, n: int) -> bool {
    forall|i: int|
        0 <= i < stream.len() ==> (#[trigger] stream[i] matches Operand::Ready(id) ==> 0 <= id < n)
}

/// A scanned expression has one operand more than it has operators, or more.
pub proof fn lemma_scan_counts(s: Seq<char>)
    ensures
        tokens_of(s).len() >= operators_of(s).len() + 1,
    decreases s.len(),
{
    if s.len() > 0 {
        lemma_scan_counts(s.drop_last());
    }
}

proof fn lemma_emit_keeps_order(draft: Draft, op: Operator, l: int, r: int)
    requires
        well_ordered(draft.steps),
        0 <= l < draft.steps.len(),
        0 <= r < draft.steps.len(),
    ensures
        well_ordered(emit(draft, StepView::Binary(op, l, r)).draft.steps),
{
}

proof fn lemma_resolve_keeps_order(
    token: Seq<char>,
    variables: Map<Seq<char>, VariableView>,
    draft: Draft,
    fuel: nat,
)
    requires
        well_ordered(draft.steps),
    ensures
        well_ordered(resolve(token, variables, draft, fuel).draft.steps),
        0 <= resolve(token, variables, draft, fuel).id < resolve(
            token,
            variables,
            draft,
            fuel,
        ).draft.steps.len(),
        draft.steps.len() <= resolve(token, variables, draft, fuel).draft.steps.len(),
    decreases fuel, 0nat, 0nat,
{
    if token.contains('(') || token.contains(')') {
        if bracket_body(token) is Some && fuel > 0 {
            lemma_compile_keeps_order(bracket_body(token)->0, variables, draft, (fuel - 1) as nat);
        }
    }
}

proof fn lemma_settle_keeps_order(
    operand: Operand,
    variables: Map<Seq<char>, VariableView>,
    draft: Draft,
    fuel: nat,
)
    requires
        well_ordered(draft.steps),
        operand matches Operand::Ready(id) ==> 0 <= id < draft.steps.len(),
    ensures
        well_ordered(settle(operand, variables, draft, fuel).draft.steps),
        0 <= settle(operand, variables, draft, fuel).id < settle(
            operand,
            variables,
            draft,
            fuel,
        ).draft.steps.len(),
        draft.steps.len() <= settle(operand, variables, draft, fuel).draft.steps.len(),
    decreases fuel, 0nat, 1nat,
{
    match operand {
        Operand::Ready(id) => {},
        Operand::Pending(token) => {
            lemma_resolve_keeps_order(token, variables, draft, fuel);
        },
    }
}

proof fn lemma_sweep_keeps_order(
    carry: Operand,
    stream: Seq<Operand>,
    operators: Seq<Operator>,
    tier: Tier,
    variables: Map<Seq<char>, VariableView>,
    draft: Draft,
    fuel: nat,
)
    requires
        well_ordered(draft.steps),
        carry matches Operand::Ready(id) ==> 0 <= id < draft.steps.len(),
        within(stream, draft.steps.len() as int),
    ensures
        well_ordered(sweep(carry, stream, operators, tier, variables, draft, fuel).draft.steps),
        within(
            sweep(carry, stream, operators, tier, variables, draft, fuel).stream,
            sweep(carry, stream, operators, tier, variables, draft, fuel).draft.steps.len() as int,
        ),
        draft.steps.len() <= sweep(
            carry,
            stream,
            operators,
            tier,
            variables,
            draft,
            fuel,
        ).draft.steps.len(),
        sweep(carry, stream, operators, tier, variables, draft, fuel).stream.len() >= 1,
    decreases fuel, 1nat, operators.len(),
{
    let out = sweep(carry, stream, operators, tier, variables, draft, fuel);
    if operators.len() == 0 || stream.len() == 0 {
        assert forall|i: int| 0 <= i < out.stream.len() implies (#[trigger] out.stream[i] matches Operand::Ready(
            id,
        ) ==> 0 <= id < out.draft.steps.len()) by {
            if i > 0 {
                assert(out.stream[i] == stream[i - 1]);
            }
        }
    } else if tier_of(operators[0]) == tier {
        lemma_settle_keeps_order(carry, variables, draft, fuel);
        let left = settle(carry, variables, draft, fuel);
        assert(stream[0] matches Operand::Ready(id) ==> 0 <= id < left.draft.steps.len());
        lemma_settle_keeps_order(stream[0], variables, left.draft, fuel);
        let right = settle(stream[0], variables, left.draft, fuel);
        lemma_emit_keeps_order(right.draft, operators[0], left.id, right.id);
        let joined = emit(right.draft, StepView::Binary(operators[0], left.id, right.id));
        assert forall|i: int| 0 <= i < stream.skip(1).len() implies (#[trigger] stream.skip(
            1,
        )[i] matches Operand::Ready(id) ==> 0 <= id < joined.draft.steps.len()) by {
            assert(stream.skip(1)[i] == stream[i + 1]);
        }
        lemma_sweep_keeps_order(
            Operand::Ready(joined.id),
            stream.skip(1),
            operators.skip(1),
            tier,
            variables,
            joined.draft,
            fuel,
        );
    } else {
        assert forall|i: int| 0 <= i < stream.skip(1).len() implies (#[trigger] stream.skip(
            1,
        )[i] matches Operand::Ready(id) ==> 0 <= id < draft.steps.len()) by {
            assert(stream.skip(1)[i] == stream[i + 1]);
        }
        lemma_sweep_keeps_order(
            stream[0],
            stream.skip(1),
            operators.skip(1),
            tier,
            variables,
            draft,
            fuel,
        );
        let rest = sweep(stream[0], stream.skip(1), operators.skip(1), tier, variables, draft, fuel);
        assert forall|i: int| 0 <= i < out.stream.len() implies (#[trigger] out.stream[i] matches Operand::Ready(
            id,
        ) ==> 0 <= id < out.draft.steps.len()) by {
            if i > 0 {
                assert(out.stream[i] == rest.stream[i - 1]);
            }
        }
    }
}

proof fn lemma_round_keeps_order(
    before: Swept,
    tier: Tier,
    variables: Map<Seq<char>, VariableView>,
    fuel: nat,
)
    requires
        well_ordered(before.draft.steps),
        within(before.stream, before.draft.steps.len() as int),
        before.stream.len() >= 1,
    ensures
        well_ordered(round(before, tier, variables, fuel).draft.steps),
        within(
            round(before, tier, variables, fuel).stream,
            round(before, tier, variables, fuel).draft.steps.len() as int,
        ),
        before.draft.steps.len() <= round(before, tier, variables, fuel).draft.steps.len(),
        round(before, tier, variables, fuel).stream.len() >= 1,
    decreases fuel, 1nat, before.operators.len() + 1,
{
    assert forall|i: int| 0 <= i < before.stream.skip(1).len() implies (#[trigger] before.stream.skip(
        1,
    )[i] matches Operand::Ready(id) ==> 0 <= id < before.draft.steps.len()) by {
        assert(before.stream.skip(1)[i] == before.stream[i + 1]);
    }
    lemma_sweep_keeps_order(
        before.stream[0],
        before.stream.skip(1),
        before.operators,
        tier,
        variables,
        before.draft,
        fuel,
    );
}

proof fn lemma_compile_keeps_order(
    text: Seq<char>,
    variables: Map<Seq<char>, VariableView>,
    draft: Draft,
    fuel: nat,
)
    requires
        well_ordered(draft.steps),
    ensures
        well_ordered(compile(text, variables, draft, fuel).draft.steps),
        0 <= compile(text, variables, draft, fuel).id < compile(
            text,
            variables,
            draft,
            fuel,
        ).draft.steps.len(),
        draft.steps.len() <= compile(text, variables, draft, fuel).draft.steps.len(),
    decreases fuel, 2nat, 0nat,
{
    let s = without_whitespace(text);
    let start = Swept { stream: pending(tokens_of(s)), operators: operators_of(s), draft };
    lemma_round_keeps_order(start, Tier::Product, variables, fuel);
    let a = round(start, Tier::Product, variables, fuel);
    lemma_round_keeps_order(a, Tier::Ratio, variables, fuel);
    let b = round(a, Tier::Ratio, variables, fuel);
    lemma_round_keeps_order(b, Tier::Quotient, variables, fuel);
    let c = round(b, Tier::Quotient, variables, fuel);
    lemma_round_keeps_order(c, Tier::Remainder, variables, fuel);
    let d = round(c, Tier::Remainder, variables, fuel);
    lemma_round_keeps_order(d, Tier::Sum, variables, fuel);
    let e = round(d, Tier::Sum, variables, fuel);
    lemma_settle_keeps_order(e.stream[0], variables, e.draft, fuel);
}

/// In the plan of an expression every operation takes its operands from
/// earlier steps, and the step that holds the value of the expression is
/// one of the plan.
pub proof fn lemma_plan_is_well_ordered(
    text: Seq<char>,
    variables: Map<Seq<char>, VariableView>,
    log: Seq<DiagnosticView>,
)
    ensures
        well_ordered(planned(text, variables, log).draft.steps),
        0 <= planned(text, variables, log).id < planned(text, variables, log).draft.steps.len(),
{
    lemma_compile_keeps_order(text, variables, Draft { steps: Seq::empty(), log }, text.len());
}

/// Every operand that is still a text has at most `limit` characters.
pub open spec fn bounded(stream: Seq<Operand>, limit: int) -> bool {
    forall|i: int|
        0 <= i < stream.len() ==> (#[trigger] stream[i] matches Operand::Pending(t) ==> t.len()
            <= limit)
}

proof fn lemma_without_whitespace_len(s: Seq<char>)
    ensures
        without_whitespace(s).len() <= s.len(),
    decreases s.len(),
{
    if s.len() > 0 {
        lemma_without_whitespace_len(s.drop_last());
    }
}

proof fn lemma_scan_lengths(s: Seq<char>)
    ensures
        scan(s).current.len() <= s.len(),
        forall|i: int| 0 <= i < scan(s).tokens.len() ==> (#[trigger] scan(s).tokens[i]).len() <= s.len(),
    decreases s.len(),
{
    if s.len() > 0 {
        lemma_scan_lengths(s.drop_last());
    }
}

proof fn lemma_bracket_body_shorter(token: Seq<char>)
    requires
        bracket_body(token) is Some,
    ensures
        bracket_body(token)->0.len() < token.len(),
{
    lemma_first_index(token, '(');
    let open = first_index(token, '(');
    let rest = token.skip(open + 1);
    lemma_last_index(rest, ')');
}

proof fn lemma_resolve_fuel(
    token: Seq<char>,
    variables: Map<Seq<char>, VariableView>,
    draft: Draft,
    f1: nat,
    f2: nat,
)
    requires
        f1 >= token.len(),
        f2 >= token.len(),
    ensures
        resolve(token, variables, draft, f1) == resolve(token, variables, draft, f2),
    decreases token.len(), 0nat, 0nat,
{
    if token.contains('(') || token.contains(')') {
        if bracket_body(token) is Some {
            lemma_bracket_body_shorter(token);
            lemma_compile_fuel(
                bracket_body(token)->0,
                variables,
                draft,
                (f1 - 1) as nat,
                (f2 - 1) as nat,
            );
        }
    }
}

proof fn lemma_settle_fuel(
    operand: Operand,
    variables: Map<Seq<char>, VariableView>,
    draft: Draft,
    f1: nat,
    f2: nat,
    limit: nat,
)
    requires
        operand matches Operand::Pending(t) ==> t.len() <= limit,
        f1 >= limit,
        f2 >= limit,
    ensures
        settle(operand, variables, draft, f1) == settle(operand, variables, draft, f2),
    decreases limit, 0nat, 1nat,
{
    match operand {
        Operand::Ready(id) => {},
        Operand::Pending(token) => {
            lemma_resolve_fuel(token, variables, draft, f1, f2);
        },
    }
}

proof fn lemma_sweep_fuel(
    carry: Operand,
    stream: Seq<Operand>,
    operators: Seq<Operator>,
    tier: Tier,
    variables: Map<Seq<char>, VariableView>,
    draft: Draft,
    f1: nat,
    f2: nat,
    limit: nat,
)
    requires
        carry matches Operand::Pending(t) ==> t.len() <= limit,
        bounded(stream, limit as int),
        f1 >= limit,
        f2 >= limit,
    ensures
        sweep(carry, stream, operators, tier, variables, draft, f1) == sweep(
            carry,
            stream,
            operators,
            tier,
            variables,
            draft,
            f2,
        ),
        bounded(sweep(carry, stream, operators, tier, variables, draft, f1).stream, limit as int),
    decreases limit, 1nat, operators.len(),
{
    let out = sweep(carry, stream, operators, tier, variables, draft, f1);
    if operators.len() == 0 || stream.len() == 0 {
        assert forall|i: int| 0 <= i < out.stream.len() implies (#[trigger] out.stream[i] matches Operand::Pending(
            t,
        ) ==> t.len() <= limit) by {
            if i > 0 {
                assert(out.stream[i] == stream[i - 1]);
            }
        }
    } else {
        assert forall|i: int| 0 <= i < stream.skip(1).len() implies (#[trigger] stream.skip(
            1,
        )[i] matches Operand::Pending(t) ==> t.len() <= limit) by {
            assert(stream.skip(1)[i] == stream[i + 1]);
        }
        assert(stream[0] matches Operand::Pending(t) ==> t.len() <= limit);
        if tier_of(operators[0]) == tier {
            lemma_settle_fuel(carry, variables, draft, f1, f2, limit);
            let left = settle(carry, variables, draft, f1);
            lemma_settle_fuel(stream[0], variables, left.draft, f1, f2, limit);
            let right = settle(stream[0], variables, left.draft, f1);
            let joined = emit(right.draft, StepView::Binary(operators[0], left.id, right.id));
            lemma_sweep_fuel(
                Operand::Ready(joined.id),
                stream.skip(1),
                operators.skip(1),
                tier,
                variables,
                joined.draft,
                f1,
                f2,
                limit,
            );
        } else {
            lemma_sweep_fuel(
                stream[0],
                stream.skip(1),
                operators.skip(1),
                tier,
                variables,
                draft,
                f1,
                f2,
                limit,
            );
            let rest = sweep(
                stream[0],
                stream.skip(1),
                operators.skip(1),
                tier,
                variables,
                draft,
                f1,
            );
            assert forall|i: int| 0 <= i < out.stream.len() implies (#[trigger] out.stream[i] matches Operand::Pending(
                t,
            ) ==> t.len() <= limit) by {
                if i > 0 {
                    assert(out.stream[i] == rest.stream[i - 1]);
                }
            }
        }
    }
}

proof fn lemma_round_fuel(
    before: Swept,
    tier: Tier,
    variables: Map<Seq<char>, VariableView>,
    f1: nat,
    f2: nat,
    limit: nat,
)
    requires
        bounded(before.stream, limit as int),
        f1 >= limit,
        f2 >= limit,
    ensures
        round(before, tier, variables, f1) == round(before, tier, variables, f2),
        bounded(round(before, tier, variables, f1).stream, limit as int),
    decreases limit, 1nat, before.operators.len() + 1,
{
    if before.stream.len() > 0 {
        assert forall|i: int| 0 <= i < before.stream.skip(1).len() implies (#[trigger] before.stream.skip(
            1,
        )[i] matches Operand::Pending(t) ==> t.len() <= limit) by {
            assert(before.stream.skip(1)[i] == before.stream[i + 1]);
        }
        assert(before.stream[0] matches Operand::Pending(t) ==> t.len() <= limit);
        lemma_sweep_fuel(
            before.stream[0],
            before.stream.skip(1),
            before.operators,
            tier,
            variables,
            before.draft,
            f1,
            f2,
            limit,
        );
    }
}

proof fn lemma_compile_fuel(
    text: Seq<char>,
    variables: Map<Seq<char>, VariableView>,
    draft: Draft,
    f1: nat,
    f2: nat,
)
    requires
        f1 >= text.len(),
        f2 >= text.len(),
    ensures
        compile(text, variables, draft, f1) == compile(text, variables, draft, f2),
    decreases text.len(), 2nat, 0nat,
{
    let limit = text.len();
    let s = without_whitespace(text);
    lemma_without_whitespace_len(text);
    lemma_scan_lengths(s);
    let start = Swept { stream: pending(tokens_of(s)), operators: operators_of(s), draft };
    assert forall|i: int| 0 <= i < start.stream.len() implies (#[trigger] start.stream[i] matches Operand::Pending(
        t,
    ) ==> t.len() <= limit) by {
        if i < scan(s).tokens.len() {
            assert(tokens_of(s)[i] == scan(s).tokens[i]);
        }
    }
    lemma_round_fuel(start, Tier::Product, variables, f1, f2, limit);
    let a = round(start, Tier::Product, variables, f1);
    lemma_round_fuel(a, Tier::Ratio, variables, f1, f2, limit);
    let b = round(a, Tier::Ratio, variables, f1);
    lemma_round_fuel(b, Tier::Quotient, variables, f1, f2, limit);
    let c = round(b, Tier::Quotient, variables, f1);
    lemma_round_fuel(c, Tier::Remainder, variables, f1, f2, limit);
    let d = round(c, Tier::Remainder, variables, f1);
    lemma_round_fuel(d, Tier::Sum, variables, f1, f2, limit);
    let e = round(d, Tier::Sum, variables, f1);
    if e.stream.len() > 0 {
        lemma_settle_fuel(e.stream[0], variables, e.draft, f1, f2, limit);
    }
}

/// Brackets cannot nest deeper than the text is long: the plan of an
/// expression is the same for every bound on the nesting that is at least
/// the length of the text.
pub proof fn lemma_fuel_is_enough(
    text: Seq<char>,
    variables: Map<Seq<char>, VariableView>,
    log: Seq<DiagnosticView>,
    fuel: nat,
)
    requires
        fuel >= text.len(),
    ensures
        compile(text, variables, Draft { steps: Seq::empty(), log }, fuel) == planned(
            text,
            variables,
            log,
        ),
{
    lemma_compile_fuel(text, variables, Draft { steps: Seq::empty(), log }, fuel, text.len());
}

proof fn lemma_sweep_clears_tier(
    carry: Operand,
    stream: Seq<Operand>,
    operators: Seq<Operator>,
    tier: Tier,
    cleared: Set<Tier>,
    variables: Map<Seq<char>, VariableView>,
    draft: Draft,
    fuel: nat,
)
    requires
        stream.len() >= operators.len(),
        forall|i: int| 0 <= i < operators.len() ==> !cleared.contains(tier_of(#[trigger] operators[i])),
    ensures
        ({
            let out = sweep(carry, stream, operators, tier, variables, draft, fuel);
            &&& out.stream.len() >= out.operators.len() + 1
            &&& forall|i: int|
                0 <= i < out.operators.len() ==> tier_of(#[trigger] out.operators[i]) != tier
                    && !cleared.contains(tier_of(out.operators[i]))
        }),
    decreases operators.len(),
{
    let out = sweep(carry, stream, operators, tier, variables, draft, fuel);
    if operators.len() == 0 || stream.len() == 0 {
    } else {
        assert forall|i: int| 0 <= i < operators.skip(1).len() implies !cleared.contains(
            tier_of(#[trigger] operators.skip(1)[i]),
        ) by {
            assert(operators.skip(1)[i] == operators[i + 1]);
        }
        if tier_of(operators[0]) == tier {
            let left = settle(carry, variables, draft, fuel);
            let right = settle(stream[0], variables, left.draft, fuel);
            let joined = emit(right.draft, StepView::Binary(operators[0], left.id, right.id));
            lemma_sweep_clears_tier(
                Operand::Ready(joined.id),
                stream.skip(1),
                operators.skip(1),
                tier,
                cleared,
                variables,
                joined.draft,
                fuel,
            );
        } else {
            lemma_sweep_clears_tier(
                stream[0],
                stream.skip(1),
                operators.skip(1),
                tier,
                cleared,
                variables,
                draft,
                fuel,
            );
            let rest = sweep(
                stream[0],
                stream.skip(1),
                operators.skip(1),
                tier,
                variables,
                draft,
                fuel,
            );
            assert forall|i: int| 0 <= i < out.operators.len() implies tier_of(
                #[trigger] out.operators[i],
            ) != tier && !cleared.contains(tier_of(out.operators[i])) by {
                if i > 0 {
                    assert(out.operators[i] == rest.operators[i - 1]);
                } else {
                    assert(out.operators[0] == operators[0]);
                }
            }
        }
    }
}

/// A round applies every operator of its tier: of the operators that it
/// leaves, none belongs to the tier, and none to a tier that an earlier
/// round has cleared. It leaves one operand more than operators, or more.
pub proof fn lemma_round_clears_tier(
    before: Swept,
    tier: Tier,
    cleared: Set<Tier>,
    variables: Map<Seq<char>, VariableView>,
    fuel: nat,
)
    requires
        before.stream.len() >= before.operators.len() + 1,
        forall|i: int|
            0 <= i < before.operators.len() ==> !cleared.contains(
                tier_of(#[trigger] before.operators[i]),
            ),
    ensures
        ({
            let out = round(before, tier, variables, fuel);
            &&& out.stream.len() >= out.operators.len() + 1
            &&& forall|i: int|
                0 <= i < out.operators.len() ==> !cleared.insert(tier).contains(
                    tier_of(#[trigger] out.operators[i]),
                )
        }),
{
    lemma_sweep_clears_tier(
        before.stream[0],
        before.stream.skip(1),
        before.operators,
        tier,
        cleared,
        variables,
        before.draft,
        fuel,
    );
}

/// What the five rounds leave of a scanned expression.
pub open spec fn after_rounds(
    text: Seq<char>,
    variables: Map<Seq<char>, VariableView>,
    draft: Draft,
    fuel: nat,
) -> Swept {
    let s = without_whitespace(text);
    let start = Swept { stream: pending(tokens_of(s)), operators: operators_of(s), draft };
    let a = round(start, Tier::Product, variables, fuel);
    let b = round(a, Tier::Ratio, variables, fuel);
    let c = round(b, Tier::Quotient, variables, fuel);
    let d = round(c, Tier::Remainder, variables, fuel);
    round(d, Tier::Sum, variables, fuel)
}

/// The five rounds apply every operator of an expression: when they are
/// made, no operator is left, and the value of the expression is the
/// operand that stands first.
pub proof fn lemma_rounds_apply_every_operator(
    text: Seq<char>,
    variables: Map<Seq<char>, VariableView>,
    draft: Draft,
    fuel: nat,
)
    ensures
        after_rounds(text, variables, draft, fuel).operators.len() == 0,
        after_rounds(text, variables, draft, fuel).stream.len() >= 1,
        compile(text, variables, draft, fuel) == settle(
            after_rounds(text, variables, draft, fuel).stream[0],
            variables,
            after_rounds(text, variables, draft, fuel).draft,
            fuel,
        ),
{
    let s = without_whitespace(text);
    lemma_scan_counts(s);
    let start = Swept { stream: pending(tokens_of(s)), operators: operators_of(s), draft };
    let none = Set::<Tier>::empty();
    lemma_round_clears_tier(start, Tier::Product, none, variables, fuel);
    let a = round(start, Tier::Product, variables, fuel);
    let one = none.insert(Tier::Product);
    lemma_round_clears_tier(a, Tier::Ratio, one, variables, fuel);
    let b = round(a, Tier::Ratio, variables, fuel);
    let two = one.insert(Tier::Ratio);
    lemma_round_clears_tier(b, Tier::Quotient, two, variables, fuel);
    let c = round(b, Tier::Quotient, variables, fuel);
    let three = two.insert(Tier::Quotient);
    lemma_round_clears_tier(c, Tier::Remainder, three, variables, fuel);
    let d = round(c, Tier::Remainder, variables, fuel);
    let four = three.insert(Tier::Remainder);
    lemma_round_clears_tier(d, Tier::Sum, four, variables, fuel);
    let e = round(d, Tier::Sum, variables, fuel);
    let all = four.insert(Tier::Sum);
    if e.operators.len() > 0 {
        let t = tier_of(e.operators[0]);
        assert(!all.contains(t));
        assert(t == Tier::Product || t == Tier::Ratio || t == Tier::Quotient || t
            == Tier::Remainder || t == Tier::Sum);
    }
}

/// A text that is one operand and nothing else: it holds no whitespace, no
/// operator, no bracket and no `#`.
pub open spec fn is_plain(text: Seq<char>) -> bool {
    forall|i: int|
        0 <= i < text.len() ==> {
            let c = #[trigger] text[i];
            !is_whitespace(c) && operator_of(c) is None && c != '(' && c != ')' && c != '#'
        }
}

proof fn lemma_plain_text_keeps_its_characters(text: Seq<char>)
    requires
        is_plain(text),
    ensures
        without_whitespace(text) == text,
    decreases text.len(),
{
    if text.len() > 0 {
        assert(is_plain(text.drop_last())) by {
            assert forall|i: int| 0 <= i < text.drop_last().len() implies {
                let c = #[trigger] text.drop_last()[i];
                !is_whitespace(c) && operator_of(c) is None && c != '(' && c != ')' && c != '#'
            } by {
                assert(text.drop_last()[i] == text[i]);
            }
        }
        lemma_plain_text_keeps_its_characters(text.drop_last());
        assert(!is_whitespace(text[text.len() - 1]));
        assert(text.drop_last().push(text.last()) =~= text);
    } else {
        assert(without_whitespace(text) =~= text);
    }
}

proof fn lemma_plain_text_is_one_operand(text: Seq<char>)
    requires
        is_plain(text),
    ensures
        scan(text) == (Scan {
            tokens: Seq::empty(),
            operators: Seq::empty(),
            current: text,
            depth: 0,
        }),
    decreases text.len(),
{
    if text.len() > 0 {
        assert(is_plain(text.drop_last())) by {
            assert forall|i: int| 0 <= i < text.drop_last().len() implies {
                let c = #[trigger] text.drop_last()[i];
                !is_whitespace(c) && operator_of(c) is None && c != '(' && c != ')' && c != '#'
            } by {
                assert(text.drop_last()[i] == text[i]);
            }
        }
        lemma_plain_text_is_one_operand(text.drop_last());
        let c = text[text.len() - 1];
        assert(operator_of(c) is None && c != '(' && c != ')' && c != '#');
        assert(text.drop_last().push(text.last()) =~= text);
    } else {
        assert(scan(text).current =~= text);
    }
}

/// An expression that is one plain operand is planned as that operand.
pub proof fn lemma_plain_expression_is_its_operand(
    text: Seq<char>,
    variables: Map<Seq<char>, VariableView>,
    draft: Draft,
    fuel: nat,
)
    requires
        is_plain(text),
    ensures
        compile(text, variables, draft, fuel) == resolve(text, variables, draft, fuel),
{
    lemma_plain_text_keeps_its_characters(text);
    lemma_plain_text_is_one_operand(text);
    let start = Swept { stream: pending(tokens_of(text)), operators: operators_of(text), draft };
    assert(tokens_of(text) =~= seq![text]);
    assert(start.stream =~= seq![Operand::Pending(text)]);
    assert(start.stream.skip(1) =~= Seq::<Operand>::empty());
    assert(seq![start.stream[0]] + start.stream.skip(1) =~= start.stream);
    assert(round(start, Tier::Product, variables, fuel) == start);
    assert(round(start, Tier::Ratio, variables, fuel) == start);
    assert(round(start, Tier::Quotient, variables, fuel) == start);
    assert(round(start, Tier::Remainder, variables, fuel) == start);
    assert(round(start, Tier::Sum, variables, fuel) == start);
}

/// The name of a variable, as an expression, has the value of the
/// variable: it is planned as one step that holds that value, and nothing
/// is reported.
pub proof fn lemma_variable_is_its_value(
    name: Seq<char>,
    variables: Map<Seq<char>, VariableView>,
    draft: Draft,
    fuel: nat,
)
    requires
        is_plain(name),
        variables.contains_key(name),
    ensures
        compile(name, variables, draft, fuel) == emit(
            draft,
            StepView::Constant(variables[name].variable_type.value()),
        ),
{
    lemma_plain_expression_is_its_operand(name, variables, draft, fuel);
    if name.contains('(') {
        let k = choose|k: int| 0 <= k < name.len() && name[k] == '(';
        assert(name[k] != '(');
    }
    if name.contains(')') {
        let k = choose|k: int| 0 <= k < name.len() && name[k] == ')';
        assert(name[k] != ')');
    }
}

proof fn lemma_text_without_whitespace(text: Seq<char>)
    requires
        forall|i: int| 0 <= i < text.len() ==> !is_whitespace(#[trigger] text[i]),
    ensures
        without_whitespace(text) == text,
    decreases text.len(),
{
    if text.len() > 0 {
        assert forall|i: int| 0 <= i < text.drop_last().len() implies !is_whitespace(
            #[trigger] text.drop_last()[i],
        ) by {
            assert(text.drop_last()[i] == text[i]);
        }
        lemma_text_without_whitespace(text.drop_last());
        assert(!is_whitespace(text[text.len() - 1]));
        assert(text.drop_last().push(text.last()) =~= text);
    } else {
        assert(without_whitespace(text) =~= text);
    }
}

proof fn lemma_scan_goes_on_with_plain_text(s: Seq<char>, t: Seq<char>)
    requires
        is_plain(t),
    ensures
        scan(s + t) == (Scan { current: scan(s).current + t, ..scan(s) }),
    decreases t.len(),
{
    if t.len() > 0 {
        assert(is_plain(t.drop_last())) by {
            assert forall|i: int| 0 <= i < t.drop_last().len() implies {
                let c = #[trigger] t.drop_last()[i];
                !is_whitespace(c) && operator_of(c) is None && c != '(' && c != ')' && c != '#'
            } by {
                assert(t.drop_last()[i] == t[i]);
            }
        }
        lemma_scan_goes_on_with_plain_text(s, t.drop_last());
        let c = t[t.len() - 1];
        assert(operator_of(c) is None && c != '(' && c != ')' && c != '#');
        assert((s + t).drop_last() =~= s + t.drop_last());
        assert((s + t).last() == c);
        assert((scan(s).current + t.drop_last()).push(c) =~= scan(s).current + t);
    } else {
        assert(s + t =~= s);
        assert(scan(s).current + t =~= scan(s).current);
    }
}

/// The text `a+b*c`.
pub open spec fn sum_with_product(a: Seq<char>, b: Seq<char>, c: Seq<char>) -> Seq<char> {
    a.push('+') + b.push('*') + c
}

/// A product binds before a sum, whatever the operands. In the plan of
/// `a+b*c` the operands of the product come first, then the product, then
/// the left operand of the sum, and last the sum of that operand and the
/// product.
pub proof fn lemma_product_binds_before_sum(
    a: Seq<char>,
    b: Seq<char>,
    c: Seq<char>,
    variables: Map<Seq<char>, VariableView>,
    draft: Draft,
    fuel: nat,
)
    requires
        is_plain(a),
        is_plain(b),
        is_plain(c),
    ensures
        ({
            let second = resolve(b, variables, draft, fuel);
            let third = resolve(c, variables, second.draft, fuel);
            let product = emit(
                third.draft,
                StepView::Binary(Operator::Multiply, second.id, third.id),
            );
            let first = resolve(a, variables, product.draft, fuel);
            compile(sum_with_product(a, b, c), variables, draft, fuel) == emit(
                first.draft,
                StepView::Binary(Operator::Add, first.id, product.id),
            )
        }),
{
    let text = sum_with_product(a, b, c);
    assert forall|i: int| 0 <= i < text.len() implies !is_whitespace(#[trigger] text[i]) by {
        if i < a.len() {
            assert(text[i] == a[i]);
        } else if i == a.len() {
            assert(text[i] == '+');
        } else if i < a.len() + 1 + b.len() {
            assert(text[i] == b[i - a.len() - 1]);
        } else if i == a.len() + 1 + b.len() {
            assert(text[i] == '*');
        } else {
            assert(text[i] == c[i - a.len() - b.len() - 2]);
        }
    }
    lemma_text_without_whitespace(text);
    // the scan
    let none = Seq::<char>::empty();
    lemma_scan_goes_on_with_plain_text(none, a);
    assert(none + a =~= a);
    assert(scan(none).current + a =~= a);
    let s1 = a.push('+');
    assert(s1.drop_last() =~= a);
    lemma_scan_goes_on_with_plain_text(s1, b);
    let s2 = (s1 + b).push('*');
    assert(s2.drop_last() =~= s1 + b);
    assert(scan(s1).current + b =~= b);
    lemma_scan_goes_on_with_plain_text(s2, c);
    assert(s2 + c =~= text);
    assert(scan(s2).current + c =~= c);
    assert(tokens_of(text) =~= seq![a, b, c]);
    assert(operators_of(text) =~= seq![Operator::Add, Operator::Multiply]);
    // the rounds
    let pa = Operand::Pending(a);
    let pb = Operand::Pending(b);
    let pc = Operand::Pending(c);
    let start = Swept { stream: pending(tokens_of(text)), operators: operators_of(text), draft };
    assert(start.stream =~= seq![pa, pb, pc]);
    let ops = seq![Operator::Add, Operator::Multiply];
    let second = resolve(b, variables, draft, fuel);
    let third = resolve(c, variables, second.draft, fuel);
    let product = emit(third.draft, StepView::Binary(Operator::Multiply, second.id, third.id));
    let ready = Operand::Ready(product.id);
    let first = resolve(a, variables, product.draft, fuel);
    let empty_stream = Seq::<Operand>::empty();
    let no_ops = Seq::<Operator>::empty();
    assert(start.stream.skip(1) =~= seq![pb, pc]);
    assert(seq![pb, pc].skip(1) =~= seq![pc]);
    assert(seq![pc].skip(1) =~= empty_stream);
    assert(ops.skip(1) =~= seq![Operator::Multiply]);
    assert(seq![Operator::Multiply].skip(1) =~= no_ops);
    let last = sweep(ready, empty_stream, no_ops, Tier::Product, variables, product.draft, fuel);
    assert(last.stream =~= seq![ready]);
    let inner = sweep(
        pb,
        seq![pc],
        seq![Operator::Multiply],
        Tier::Product,
        variables,
        draft,
        fuel,
    );
    assert(settle(pb, variables, draft, fuel) == second);
    assert(settle(pc, variables, second.draft, fuel) == third);
    assert(seq![pc][0] == pc);
    assert(seq![Operator::Multiply][0] == Operator::Multiply);
    assert(inner == sweep(
        ready,
        seq![pc].skip(1),
        seq![Operator::Multiply].skip(1),
        Tier::Product,
        variables,
        product.draft,
        fuel,
    ));
    assert(inner == last);
    let after_product = round(start, Tier::Product, variables, fuel);
    assert(after_product.stream =~= seq![pa, ready]);
    assert(after_product.operators =~= seq![Operator::Add]);
    assert(after_product.draft == product.draft);
    let mid = Swept { stream: seq![pa, ready], operators: seq![Operator::Add], draft: product.draft };
    assert(after_product == mid);
    assert(mid.stream.skip(1) =~= seq![ready]);
    assert(seq![ready].skip(1) =~= empty_stream);
    assert(seq![Operator::Add].skip(1) =~= no_ops);
    assert forall|tier: Tier| tier != Tier::Product && tier != Tier::Sum implies round(
        mid,
        tier,
        variables,
        fuel,
    ) == mid by {
        let tail = sweep(ready, empty_stream, no_ops, tier, variables, product.draft, fuel);
        assert(tail.stream =~= seq![ready]);
        let out = round(mid, tier, variables, fuel);
        assert(out.stream =~= seq![pa, ready]);
        assert(out.operators =~= seq![Operator::Add]);
    }
    assert(round(mid, Tier::Ratio, variables, fuel) == mid);
    assert(round(mid, Tier::Quotient, variables, fuel) == mid);
    assert(round(mid, Tier::Remainder, variables, fuel) == mid);
    let sum = emit(first.draft, StepView::Binary(Operator::Add, first.id, product.id));
    let done = sweep(
        Operand::Ready(sum.id),
        empty_stream,
        no_ops,
        Tier::Sum,
        variables,
        sum.draft,
        fuel,
    );
    assert(done.stream =~= seq![Operand::Ready(sum.id)]);
    assert(settle(pa, variables, product.draft, fuel) == first);
    assert(settle(ready, variables, first.draft, fuel) == (Resolved {
        draft: first.draft,
        id: product.id,
    }));
    let after_sum = round(mid, Tier::Sum, variables, fuel);
    assert(after_sum == sweep(
        Operand::Ready(sum.id),
        seq![ready].skip(1),
        seq![Operator::Add].skip(1),
        Tier::Sum,
        variables,
        sum.draft,
        fuel,
    ));
    assert(after_sum == done);
    assert(after_sum.stream[0] == Operand::Ready(sum.id));
    assert(settle(after_sum.stream[0], variables, after_sum.draft, fuel) == sum);
}

} // verus!
