use rugged_turtle::arithmetic::Operator;
use rugged_turtle::color::Color;
use rugged_turtle::commands::VariableTypes;
use rugged_turtle::diagnostics::DiagnosticKind;
use rugged_turtle::execution::{execute_command, Reply, Request, Session};
use rugged_turtle::number::{Number, Single};
use rugged_turtle::turtle::{Point, Turtle};

fn number(value: f64) -> Number {
    Number { bits: value.to_bits() }
}

fn single(value: f32) -> Single {
    Single { bits: value.to_bits() }
}

fn float(value: Number) -> f64 {
    f64::from_bits(value.bits)
}

/// The host's side of a session: binary64 and binary32 arithmetic.
fn compute(request: &Request, asked: &mut Vec<String>) -> Reply {
    match request {
        Request::Finished | Request::Proceed => Reply::Nothing,
        Request::Literal(text) => {
            asked.push(format!("literal {}", text));
            Reply::Number(number(text.parse::<f64>().unwrap_or(f64::NAN)))
        }
        Request::Arithmetic(operator, left, right) => {
            asked.push(format!("arithmetic {:?}", operator));
            let (a, b) = (float(*left), float(*right));
            let value = match operator {
                Operator::Multiply => a * b,
                Operator::Divide => a / b,
                Operator::Quotient => (a / b).floor(),
                Operator::Remainder => a % b,
                Operator::Add => a + b,
                Operator::Subtract => a - b,
            };
            Reply::Number(number(value))
        }
        Request::Integer(value) => {
            asked.push(format!("integer {}", value));
            Reply::Number(number(*value as f64))
        }
        Request::Advance { position, heading, distance } => {
            asked.push(format!("advance {}", float(*distance)));
            let angle = f32::from_bits(heading.bits);
            let length = float(*distance) as f32;
            let x = f32::from_bits(position.x.bits) - length * angle.sin();
            let y = f32::from_bits(position.y.bits) - length * angle.cos();
            Reply::Point(Point { x: single(x), y: single(y) })
        }
        Request::Turn { heading, degrees, clockwise } => {
            asked.push(format!("turn {}", float(*degrees)));
            let full = 2.0 * std::f32::consts::PI;
            let corrected = float(*degrees) as f32 * (full / 360.0);
            let angle = f32::from_bits(heading.bits);
            let turned = if *clockwise { angle - corrected } else { angle - (full - corrected) };
            Reply::Single(single(turned))
        }
        Request::Narrow(value) => {
            asked.push(format!("narrow {}", float(*value)));
            Reply::Single(single(float(*value) as f32))
        }
    }
}

/// Runs a program to its end and returns what the host was asked for.
fn run(session: &mut Session, program: &str) -> Vec<String> {
    let mut asked = Vec::new();
    execute_command(program, session);
    let mut reply = Reply::Nothing;
    let mut transitions = 0u64;
    loop {
        let request = session.advance(reply);
        transitions += 1;
        assert!(transitions < 50_000_000, "the program does not end");
        match request {
            Request::Finished => break,
            Request::Proceed => reply = Reply::Nothing,
            other => reply = compute(&other, &mut asked),
        }
    }
    asked
}

fn started() -> Session {
    let mut turtle = Turtle::new();
    turtle.set_position(single(100.0), single(200.0));
    Session::new(turtle)
}

fn kinds(session: &Session) -> Vec<DiagnosticKind> {
    session.turtle.command_history.iter().map(|entry| entry.kind).collect()
}

fn value_of(session: &Session, name: &str) -> f64 {
    let variable = session.turtle.variables.get(name).expect("the variable exists");
    float(variable.variable_type.get_value())
}

fn x_of(session: &Session) -> f32 {
    f32::from_bits(session.turtle.position.x.bits)
}

fn y_of(session: &Session) -> f32 {
    f32::from_bits(session.turtle.position.y.bits)
}

fn aligned(session: &Session) -> bool {
    let turtle = &session.turtle;
    turtle.path.len() == turtle.path_color.len() && turtle.path.len() == turtle.path_width.len()
}

#[test]
fn forward_at_heading_zero_moves_up_and_draws_two_points() {
    for distance in ["10", "0", "37.5", "250", "1/3"] {
        let mut session = started();
        let before = session.turtle.path.last().unwrap().len();
        run(&mut session, &format!("forward({})", distance));
        let expected = {
            let mut asked = Vec::new();
            let mut probe = started();
            run(&mut probe, &format!("d={}", distance));
            asked.push(value_of(&probe, "d"));
            asked[0] as f32
        };
        assert_eq!(x_of(&session), 100.0);
        assert_eq!(y_of(&session), 200.0 - expected);
        let segment = session.turtle.path.last().unwrap();
        assert_eq!(segment.len(), before + 2);
        assert_eq!(segment[before], Point { x: single(100.0), y: single(200.0) });
        assert_eq!(segment[before + 1], session.turtle.position);
        assert!(kinds(&session).is_empty());
    }
}

#[test]
fn forward_with_the_pen_up_draws_nothing() {
    let mut session = started();
    run(&mut session, "penup;forward(10)");
    assert_eq!(y_of(&session), 190.0);
    assert_eq!(session.turtle.path.len(), 1);
    assert!(session.turtle.path[0].is_empty());
    assert!(session.turtle.pen_up);
}

#[test]
fn forward_without_a_segment_moves_without_drawing() {
    let mut session = Session::new(Turtle::default());
    run(&mut session, "forward(10)");
    assert_eq!(y_of(&session), -10.0);
    assert!(session.turtle.path.is_empty());
    assert!(aligned(&session));
}

#[test]
fn forward_by_a_non_finite_distance_changes_nothing() {
    for (program, expected) in [
        ("forward(1/0)", vec![DiagnosticKind::BadDistance]),
        ("forward(0/0)", vec![DiagnosticKind::BadDistance]),
        ("forward(abc)", vec![DiagnosticKind::Unresolved, DiagnosticKind::BadDistance]),
    ] {
        let mut session = started();
        let asked = run(&mut session, program);
        assert_eq!(kinds(&session), expected);
        assert_eq!((x_of(&session), y_of(&session)), (100.0, 200.0));
        assert!(session.turtle.path[0].is_empty());
        assert!(!asked.iter().any(|a| a.starts_with("advance")));
    }
}

#[test]
fn four_quarter_turns_to_the_right_close_the_circle() {
    let mut session = started();
    let start = f32::from_bits(session.turtle.angle.bits);
    run(&mut session, "right(90);right(90);right(90);right(90)");
    let end = f32::from_bits(session.turtle.angle.bits);
    assert!(((end - start).sin()).abs() < 1e-5);
    assert!(((end - start).cos() - 1.0).abs() < 1e-5);
    assert!(((end - start) + 2.0 * std::f32::consts::PI).abs() < 1e-5);
}

#[test]
fn a_turn_to_the_left_is_a_turn_back_from_the_right() {
    let mut session = started();
    run(&mut session, "right(30);left(30)");
    let end = f32::from_bits(session.turtle.angle.bits);
    assert!(end.sin().abs() < 1e-5);
    assert!((end.cos() - 1.0).abs() < 1e-5);
    let mut exact = started();
    run(&mut exact, "left(90)");
    let full = 2.0 * std::f32::consts::PI;
    let corrected = 90.0f32 * (full / 360.0);
    assert_eq!(f32::from_bits(exact.turtle.angle.bits), 0.0 - (full - corrected));
}

#[test]
fn expressions_bind_in_rounds() {
    for (text, expected) in [
        ("2+3*4", 14.0),
        ("10:3", 3.0),
        ("10%3", 1.0),
        ("(2+3)*4", 20.0),
        ("7", 7.0),
        ("1+2+3-4", 2.0),
        ("8/2*2", 2.0),
        ("8/4/2", 1.0),
        ("7:2*2", 1.0),
        ("2*(3+(4-1))", 12.0),
        ("10-4-3", 3.0),
        ("7.5:2", 3.0),
        (" 1 + 1 ", 2.0),
        ("-7%3+8", 8.0 + f64::NAN),
    ] {
        let mut session = started();
        run(&mut session, &format!("x={}", text));
        let value = value_of(&session, "x");
        if expected.is_nan() {
            assert!(value.is_nan(), "{}", text);
        } else {
            assert_eq!(value, expected, "{}", text);
        }
    }
}

#[test]
fn an_unresolvable_operand_poisons_the_value_and_is_reported_once() {
    let mut session = started();
    run(&mut session, "x=2+what*3");
    assert!(value_of(&session, "x").is_nan());
    assert_eq!(kinds(&session), vec![DiagnosticKind::Unresolved]);
    assert_eq!(session.turtle.command_history[0].detail, "what");
    run(&mut session, "y=1");
    assert_eq!(value_of(&session, "y"), 1.0);
}

#[test]
fn unresolvable_operands_are_reported_in_the_order_of_the_rounds() {
    let mut session = started();
    run(&mut session, "x=a/b+c*d");
    let details: Vec<String> =
        session.turtle.command_history.iter().map(|e| e.detail.clone()).collect();
    assert_eq!(details, vec!["c", "d", "a", "b"]);
}

#[test]
fn brackets_without_a_partner_are_unresolved() {
    for text in ["(1+2", "1+2)", ")(", "()"] {
        let mut session = started();
        run(&mut session, &format!("forward({})", text));
        assert!(kinds(&session).contains(&DiagnosticKind::BadDistance) || kinds(&session).contains(&DiagnosticKind::Malformed), "{}", text);
        assert_eq!(y_of(&session), 200.0);
    }
}

#[test]
fn assignment_then_use_moves_like_the_literal() {
    let mut with_variable = started();
    run(&mut with_variable, "x=5;forward(x)");
    let mut with_literal = started();
    run(&mut with_literal, "forward(5)");
    assert_eq!(with_variable.turtle.position, with_literal.turtle.position);
    assert_eq!(with_variable.turtle.path, with_literal.turtle.path);
    assert_eq!(y_of(&with_variable), 195.0);
    let variable = with_variable.turtle.variables.get("x").unwrap();
    assert_eq!(variable.raw_value, "5");
    assert!(variable.writable);
    assert_eq!(variable.variable_type, VariableTypes::Number { value: number(5.0) });
}

#[test]
fn repeat_runs_the_block_once_for_each_index() {
    let mut session = started();
    let asked = run(&mut session, "repeat(i,0,3){forward(10)}");
    let moves = asked.iter().filter(|a| a.starts_with("advance")).count();
    assert_eq!(moves, 3);
    assert!(asked.iter().filter(|a| a.starts_with("advance")).all(|a| a == "advance 10"));
    assert_eq!(y_of(&session), 170.0);
    assert_eq!(session.turtle.path[0].len(), 6);
    let variable = session.turtle.variables.get("i").unwrap();
    assert!(!variable.writable);
    assert_eq!(variable.variable_type, VariableTypes::Number { value: number(2.0) });
    assert_eq!(variable.raw_value, "2");
    assert!(kinds(&session).is_empty());
}

#[test]
fn the_loop_variable_is_visible_in_the_block() {
    let mut session = started();
    run(&mut session, "repeat(i,0,3){eval(i);forward(i*10)}");
    let values: Vec<f64> =
        session.turtle.command_history.iter().map(|e| float(e.value)).collect();
    assert_eq!(kinds(&session), vec![DiagnosticKind::Value; 3]);
    assert_eq!(values, vec![0.0, 1.0, 2.0]);
    assert_eq!(y_of(&session), 170.0);
}

#[test]
fn nested_loops_run_the_inner_block_for_each_pair() {
    let mut session = started();
    let asked = run(&mut session, "repeat(i,0,3){repeat(j,0,2){forward(1);right(90)};penup}");
    assert_eq!(asked.iter().filter(|a| a.starts_with("advance")).count(), 6);
    assert_eq!(asked.iter().filter(|a| a.starts_with("turn")).count(), 6);
    assert!(session.turtle.pen_up);
    assert_eq!(value_of(&session, "i"), 2.0);
    assert_eq!(value_of(&session, "j"), 1.0);
}

#[test]
fn a_loop_over_an_empty_range_binds_its_variable_and_runs_nothing() {
    let mut session = started();
    let asked = run(&mut session, "repeat(i,3,3){forward(10)}");
    assert!(!asked.iter().any(|a| a.starts_with("advance")));
    assert_eq!(value_of(&session, "i"), 3.0);
    assert!(!session.turtle.variables.get("i").unwrap().writable);
    assert!(kinds(&session).is_empty());
}

#[test]
fn a_loop_with_negative_bounds_counts_up() {
    let mut session = started();
    run(&mut session, "repeat(i,-2,1){eval(i)}");
    let values: Vec<f64> =
        session.turtle.command_history.iter().map(|e| float(e.value)).collect();
    assert_eq!(values, vec![-2.0, -1.0, 0.0]);
    assert_eq!(session.turtle.variables.get("i").unwrap().raw_value, "0");
}

#[test]
fn a_loop_variable_cannot_be_assigned() {
    let mut session = started();
    run(&mut session, "repeat(i,0,2){i=7;penup};x=i");
    assert_eq!(kinds(&session), vec![DiagnosticKind::ReadOnly, DiagnosticKind::ReadOnly]);
    assert_eq!(session.turtle.command_history[0].detail, "i");
    assert_eq!(value_of(&session, "i"), 1.0);
    assert_eq!(value_of(&session, "x"), 1.0);
}

#[test]
fn repeat_with_bounds_in_the_wrong_order_runs_nothing() {
    let mut session = started();
    let asked = run(&mut session, "repeat(i,5,2){forward(10)}");
    assert!(asked.is_empty());
    assert_eq!(kinds(&session), vec![DiagnosticKind::EmptyRange]);
    assert_eq!(session.turtle.command_history[0].detail, "5");
    assert_eq!(session.turtle.command_history[0].other, "2");
    assert!(session.turtle.variables.get("i").is_none());
    assert_eq!(y_of(&session), 200.0);
}

#[test]
fn repeat_with_bounds_that_are_no_integers_runs_nothing() {
    let mut session = started();
    run(&mut session, "repeat(i,a,2){forward(10)};repeat(i,1,2.5){forward(10)};repeat(i,1){penup}");
    assert_eq!(
        kinds(&session),
        vec![DiagnosticKind::BadStart, DiagnosticKind::BadEnd, DiagnosticKind::Malformed]
    );
    assert_eq!(y_of(&session), 200.0);
}

#[test]
fn pencolor_out_of_range_changes_nothing_and_reports_once() {
    let mut session = started();
    let color = session.turtle.pencolor;
    let segments = session.turtle.path.len();
    run(&mut session, "pencolor(300,0,0,255)");
    assert_eq!(session.turtle.pencolor, color);
    assert_eq!(session.turtle.path.len(), segments);
    assert_eq!(session.turtle.path_color.len(), segments);
    assert_eq!(kinds(&session), vec![DiagnosticKind::BadChannel]);
    assert_eq!(float(session.turtle.command_history[0].value), 300.0);
}

#[test]
fn pencolor_reports_the_first_channel_that_is_wrong() {
    for (program, wrong) in [
        ("pencolor(1,2.5,700,0-1)", 2.5),
        ("pencolor(1,2,3,0-1)", -1.0),
        ("pencolor(0,0,256,0)", 256.0),
    ] {
        let mut session = started();
        run(&mut session, program);
        assert_eq!(kinds(&session), vec![DiagnosticKind::BadChannel]);
        assert_eq!(float(session.turtle.command_history[0].value), wrong);
        assert_eq!(session.turtle.pencolor, Color { r: 0, g: 0, b: 0, a: 255 });
        assert_eq!(session.turtle.path.len(), 1);
    }
    let mut session = started();
    run(&mut session, "pencolor(1,2,q,4)");
    assert_eq!(kinds(&session), vec![DiagnosticKind::Unresolved, DiagnosticKind::BadChannel]);
    let mut session = started();
    run(&mut session, "pencolor(1,2,3)");
    assert_eq!(kinds(&session), vec![DiagnosticKind::Malformed]);
}

#[test]
fn pencolor_takes_the_colour_and_opens_a_segment() {
    let mut session = started();
    run(&mut session, "pencolor(10,20,30,255)");
    assert_eq!(session.turtle.pencolor, Color { r: 10, g: 20, b: 30, a: 255 });
    assert_eq!(session.turtle.path.len(), 2);
    assert_eq!(session.turtle.path_color[1], session.turtle.pencolor);
    assert_eq!(session.turtle.path_width[1], session.turtle.penwidth);
    assert!(session.turtle.path[1].is_empty());
    assert!(kinds(&session).is_empty());
}

#[test]
fn pencolor_stores_the_colour_as_the_surface_does() {
    for (r, g, b, a) in [(255u8, 0u8, 0u8, 128u8), (200, 100, 50, 10), (1, 2, 3, 0), (9, 8, 7, 255)] {
        let mut session = started();
        run(&mut session, &format!("color({},{},{},{})", r, g, b, a));
        let expected = egui::Color32::from_rgba_unmultiplied(r, g, b, a).to_array();
        let stored = session.turtle.pencolor;
        assert_eq!([stored.r, stored.g, stored.b, stored.a], expected);
        assert_eq!(session.turtle.path_color[1], stored);
    }
    let mut session = started();
    run(&mut session, "color(255,0,0,128)");
    assert_ne!(session.turtle.pencolor, Color { r: 255, g: 0, b: 0, a: 128 });
    assert_eq!(session.turtle.pencolor.a, 128);
}

#[test]
fn penwidth_takes_the_width_and_opens_a_segment() {
    let mut session = started();
    run(&mut session, "penwidth(2.5);forward(10)");
    assert_eq!(session.turtle.penwidth, single(2.5));
    assert_eq!(session.turtle.path_width, vec![single(1.0), single(2.5)]);
    assert_eq!(session.turtle.path[1].len(), 2);
    let mut bad = started();
    run(&mut bad, "penwidth(1/0)");
    assert_eq!(kinds(&bad), vec![DiagnosticKind::BadWidth]);
    assert_eq!(bad.turtle.penwidth, single(1.0));
    assert_eq!(bad.turtle.path.len(), 1);
}

#[test]
fn pendown_opens_a_segment_only_where_one_exists() {
    let mut session = started();
    run(&mut session, "penup;pendown");
    assert!(!session.turtle.pen_up);
    assert_eq!(session.turtle.path.len(), 2);
    assert!(aligned(&session));
    let mut blank = Session::new(Turtle::default());
    run(&mut blank, "pu;pd");
    assert!(blank.turtle.path.is_empty());
    assert!(aligned(&blank));
}

#[test]
fn printing_a_variable_logs_its_value_or_its_text() {
    let mut session = started();
    run(&mut session, "x=1+2;eval(x);print(x);print(y);kier(y)");
    assert_eq!(
        kinds(&session),
        vec![
            DiagnosticKind::Value,
            DiagnosticKind::Raw,
            DiagnosticKind::Undefined,
            DiagnosticKind::Undefined
        ]
    );
    let log = &session.turtle.command_history;
    assert_eq!((log[0].detail.as_str(), float(log[0].value)), ("x", 3.0));
    assert_eq!((log[1].detail.as_str(), log[1].other.as_str()), ("x", "1+2"));
    assert_eq!(log[2].detail, "y");
}

#[test]
fn clear_empties_the_log_only() {
    let mut session = started();
    run(&mut session, "x=2;nothing;help;forward(x);clear");
    assert!(session.turtle.command_history.is_empty());
    assert_eq!(value_of(&session, "x"), 2.0);
    assert_eq!(y_of(&session), 198.0);
    run(&mut session, "nothing;?");
    assert_eq!(kinds(&session), vec![DiagnosticKind::Unknown, DiagnosticKind::Help]);
    assert_eq!(session.turtle.command_history[0].detail, "nothing");
}

#[test]
fn reset_gives_a_new_turtle() {
    let mut session = started();
    run(&mut session, "x=2;forward(10);right(90);pencolor(1,2,3,255);bad;reset");
    let turtle = &session.turtle;
    assert_eq!(turtle.position, Point { x: single(0.0), y: single(0.0) });
    assert_eq!(turtle.angle, single(0.0));
    assert_eq!(turtle.path, vec![Vec::<Point>::new()]);
    assert_eq!(turtle.path_color, vec![Color { r: 0, g: 0, b: 0, a: 255 }]);
    assert_eq!(turtle.path_width, vec![single(1.0)]);
    assert_eq!(turtle.pencolor, Color::black());
    assert!(!turtle.pen_up);
    assert!(turtle.variables.is_empty());
    assert!(turtle.command_history.is_empty());
    assert!(session.is_finished());
}

#[test]
fn a_number_is_no_name_for_a_variable() {
    let mut session = started();
    run(&mut session, "5=3;-1=2;inf=1;x=");
    assert_eq!(
        kinds(&session),
        vec![
            DiagnosticKind::NumberAsName,
            DiagnosticKind::NumberAsName,
            DiagnosticKind::NumberAsName,
            DiagnosticKind::Malformed
        ]
    );
    assert!(session.turtle.variables.is_empty());
}

#[test]
fn a_statement_after_a_failed_one_still_runs() {
    let mut session = started();
    run(&mut session, "forward(;forward(oops);pencolor(1,2,3,999);forward(10)");
    assert_eq!(y_of(&session), 190.0);
    assert_eq!(
        kinds(&session),
        vec![
            DiagnosticKind::Malformed,
            DiagnosticKind::Unresolved,
            DiagnosticKind::BadDistance,
            DiagnosticKind::BadChannel
        ]
    );
}

#[test]
fn every_spelling_of_a_command_does_the_same() {
    for name in ["e", "elore", "f", "fd", "forward"] {
        let mut session = started();
        run(&mut session, &format!("{}(10)", name));
        assert_eq!(y_of(&session), 190.0, "{}", name);
    }
    for name in ["i", "ism", "ismetles", "rep", "repeat", "for"] {
        let mut session = started();
        run(&mut session, &format!("{}(k,0,2){{f(1)}}", name));
        assert_eq!(y_of(&session), 198.0, "{}", name);
    }
    let mut session = started();
    run(&mut session, "r(90)");
    assert_ne!(session.turtle.angle, single(0.0));
    assert!(session.turtle.variables.is_empty());
}

#[test]
fn the_segment_lists_stay_equally_long() {
    let programs = [
        "forward(10);pencolor(1,2,3,4);penwidth(3);penup;pendown;forward(5)",
        "pencolor(1,2,3,400);penwidth(x);pd;pd;pd",
        "reset;pd;pencolor(0,0,0,0);repeat(i,0,4){pw(i+1);fd(10);rt(90)}",
        "repeat(i,0,3){repeat(j,0,3){color(i,j,0,255)}};clear;reset;f(1)",
        "{;};((;=;repeat(;x=1;x=x+1;tollszin(x,x,x,x)",
    ];
    for start in [0, 1] {
        for program in programs {
            let turtle = if start == 0 { Turtle::default() } else { Turtle::new() };
            let mut session = Session::new(turtle);
            execute_command(program, &mut session);
            let mut asked = Vec::new();
            let mut reply = Reply::Nothing;
            loop {
                let request = session.advance(reply);
                assert!(aligned(&session), "{}", program);
                match request {
                    Request::Finished => break,
                    Request::Proceed => reply = Reply::Nothing,
                    other => reply = compute(&other, &mut asked),
                }
            }
        }
    }
}

#[test]
fn a_reply_that_answers_nothing_changes_nothing() {
    let mut session = started();
    execute_command("forward(10)", &mut session);
    let mut asked = Vec::new();
    let mut request = session.advance(Reply::Nothing);
    while !matches!(request, Request::Advance { .. }) {
        let reply = compute(&request, &mut asked);
        request = session.advance(reply);
    }
    for wrong in [Reply::Nothing, Reply::Number(number(1.0)), Reply::Single(single(1.0))] {
        let again = session.advance(wrong);
        assert!(matches!(again, Request::Advance { .. }));
        assert_eq!(y_of(&session), 200.0);
    }
    let reply = compute(&request, &mut asked);
    assert!(matches!(session.advance(reply), Request::Proceed));
    assert_eq!(y_of(&session), 190.0);
}

#[test]
fn a_program_that_takes_too_long_is_stopped() {
    let mut session = started();
    run(&mut session, "repeat(i,0,2000000){penup}");
    assert_eq!(kinds(&session), vec![DiagnosticKind::Exhausted]);
    assert!(session.is_finished());
    assert!(value_of(&session, "i") < 1_000_000.0);
    run(&mut session, "pendown;forward(1)");
    assert_eq!(y_of(&session), 199.0);
}

#[test]
fn a_new_session_has_nothing_to_run() {
    let mut session = started();
    assert!(session.is_finished());
    assert!(matches!(session.advance(Reply::Nothing), Request::Finished));
    execute_command("   ", &mut session);
    assert!(matches!(session.advance(Reply::Nothing), Request::Proceed));
    assert!(matches!(session.advance(Reply::Nothing), Request::Finished));
}
