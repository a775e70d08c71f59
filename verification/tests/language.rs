use rugged_turtle::arithmetic::{body_of, parse_number_value, tokenize, Operator, Step};
use rugged_turtle::commands::{
    chain, lookup, parse_statement, Command, CommandKind, Statement, Variable, VariableTypes,
};
use rugged_turtle::diagnostics::DiagnosticKind;
use rugged_turtle::number::{decimal, number_literal, parse_integer, Number};
use rugged_turtle::parsing::{chars_of, split, string_of, trim_whitespace, whitespace};
use rugged_turtle::turtle::Turtle;

fn text(s: &str) -> Vec<char> {
    s.chars().collect()
}

fn strings(v: &Vec<Vec<char>>) -> Vec<String> {
    v.iter().map(string_of).collect()
}

#[test]
fn trim_whitespace_removes_every_whitespace_character() {
    assert_eq!(trim_whitespace("  for ward ( 1\t0 )\n"), "forward(10)");
    assert_eq!(trim_whitespace(""), "");
    assert_eq!(trim_whitespace(" \u{a0}\u{2003}\u{3000} "), "");
    assert_eq!(trim_whitespace("a\u{200b}b"), "a\u{200b}b");
    assert_eq!(trim_whitespace("árvíz tűrő"), "árvíztűrő");
}

#[test]
fn whitespace_is_what_the_language_calls_whitespace() {
    for code in 0..=0x11_0000u32 {
        if let Some(c) = char::from_u32(code) {
            assert_eq!(whitespace(c), c.is_whitespace(), "{:x}", code);
        }
    }
}

#[test]
fn texts_and_strings_convert_both_ways() {
    for s in ["", "abc", "tűrő;{}", "a b"] {
        assert_eq!(chars_of(s), text(s));
        assert_eq!(string_of(&text(s)), s);
    }
}

#[test]
fn split_cuts_at_every_separator() {
    assert_eq!(strings(&split(&text("a;b;;c"), ';')), vec!["a", "b", "", "c"]);
    assert_eq!(strings(&split(&text(""), ';')), vec![""]);
    assert_eq!(strings(&split(&text(";"), ';')), vec!["", ""]);
    assert_eq!(strings(&split(&text("abc"), ',')), vec!["abc"]);
}

#[test]
fn chain_keeps_blocks_together() {
    assert_eq!(
        strings(&chain(&text("forward(100);right(90);forward(10)"))),
        vec!["forward(100)", "right(90)", "forward(10)"]
    );
    assert_eq!(
        strings(&chain(&text("x = 1; repeat(i,0,3){ a; b; c }; y = 2"))),
        vec!["x=1", "repeat(i,0,3){a;b;c}", "y=2"]
    );
    assert_eq!(
        strings(&chain(&text("repeat(i,0,2){repeat(j,0,2){a;b};c};d"))),
        vec!["repeat(i,0,2){repeat(j,0,2){a;b};c}", "d"]
    );
    assert_eq!(strings(&chain(&text("a;;b;"))), vec!["a", "b"]);
    assert_eq!(strings(&chain(&text("rep(i,0,2){a;;b}"))), vec!["rep(i,0,2){a;b}"]);
    assert!(chain(&text("")).is_empty());
    assert!(chain(&text(" ; ;")).is_empty());
}

#[test]
fn chain_drops_a_block_that_is_never_closed() {
    assert_eq!(strings(&chain(&text("a;repeat(i,0,3){b;c"))), vec!["a"]);
    assert_eq!(strings(&chain(&text("a;{;b;c"))), vec!["a"]);
    assert_eq!(strings(&chain(&text("a;};b"))), vec!["a", "b"]);
    assert_eq!(strings(&chain(&text("};a;{"))), vec!["a", "};{"]);
}

#[test]
fn a_statement_is_an_assignment_or_a_call() {
    match parse_statement(&text("x=2+3")) {
        Statement::Assignment { name, value } => {
            assert_eq!((string_of(&name), string_of(&value)), ("x".to_string(), "2+3".to_string()))
        }
        other => panic!("{:?}", other),
    }
    match parse_statement(&text("pencolor(1,2+3,(4),5)")) {
        Statement::Call { name, arguments, block } => {
            assert_eq!(string_of(&name), "pencolor");
            assert_eq!(strings(&arguments), vec!["1", "2+3", "(4)", "5"]);
            assert!(block.is_none());
        }
        other => panic!("{:?}", other),
    }
    match parse_statement(&text("forward((2+3)*4)")) {
        Statement::Call { name, arguments, .. } => {
            assert_eq!(string_of(&name), "forward");
            assert_eq!(strings(&arguments), vec!["(2+3)*4"]);
        }
        other => panic!("{:?}", other),
    }
    match parse_statement(&text("repeat(i,0,3){repeat(j,0,2){a;b};c}")) {
        Statement::Call { name, arguments, block } => {
            assert_eq!(string_of(&name), "repeat");
            assert_eq!(strings(&arguments), vec!["i", "0", "3"]);
            assert_eq!(string_of(&block.unwrap()), "repeat(j,0,2){a;b};c");
        }
        other => panic!("{:?}", other),
    }
    for bare in ["penup", "penup()"] {
        match parse_statement(&text(bare)) {
            Statement::Call { name, arguments, block } => {
                assert_eq!(string_of(&name), "penup");
                assert!(arguments.is_empty());
                assert!(block.is_none());
            }
            other => panic!("{:?}", other),
        }
    }
    match parse_statement(&text("repeat(i,0,3){}")) {
        Statement::Call { block, .. } => assert_eq!(string_of(&block.unwrap()), ""),
        other => panic!("{:?}", other),
    }
}

#[test]
fn a_statement_that_is_neither_is_malformed() {
    for s in ["forward(", "forward)", ")forward(", "a{b", "a}b", "x=", "=1", "}{"] {
        assert!(matches!(parse_statement(&text(s)), Statement::Malformed), "{}", s);
    }
    assert!(matches!(parse_statement(&text("x=1=2")), Statement::Assignment { .. }));
    assert!(matches!(parse_statement(&text("repeat(i,0,3){x=1}")), Statement::Assignment { .. }));
    assert!(matches!(parse_statement(&text("repeat(i,0,3){x=1;y=2}")), Statement::Call { .. }));
}

#[test]
fn names_are_looked_up_in_the_order_of_the_table() {
    let table = [
        (CommandKind::Forward, "e elore f fd forward"),
        (CommandKind::RotateRight, "j jobb jobbra r rt right"),
        (CommandKind::RotateLeft, "b bal balra l lt left"),
        (CommandKind::PenColor, "tsz tollszin szin pc pencolor color"),
        (CommandKind::PenWidth, "tv tollvastagsag vastagsag pw penwidth width"),
        (CommandKind::PenUp, "tf tollfel pu penup up"),
        (CommandKind::PenDown, "tl tollle pd pendown down"),
        (CommandKind::PrintValue, "kier kiertekeles kiszamolas eval calc calculate evaluate"),
        (CommandKind::PrintRaw, "ki kiir kiiratas print"),
        (CommandKind::Clear, "trl torol clr clear"),
        (CommandKind::Reset, "alaphelyzet reset default"),
        (CommandKind::Repeat, "i ism ismetles r rep repeat for"),
        (CommandKind::Help, "? segitseg help"),
    ];
    for (kind, aliases) in table {
        for alias in aliases.split(' ') {
            assert!(Command::of(kind).accepts(&text(alias)));
            let expected = if alias == "r" { CommandKind::RotateRight } else { kind };
            assert_eq!(lookup(&text(alias)), Some(expected), "{}", alias);
        }
        assert!(!Command::of(kind).accepts(&text("")));
        assert!(!Command::of(kind).accepts(&text(aliases)));
    }
    for unknown in ["", "forwar", "Forward", "forward ", "e elore", "x"] {
        assert_eq!(lookup(&text(unknown)), None, "{}", unknown);
    }
    assert!(Command::default().accepts(&text("")));
    assert!(!Command::default().accepts(&text("e")));
}

#[test]
fn number_literals_are_what_the_host_can_read() {
    let samples = [
        "", "0", "7", "007", "1.5", "1.", ".5", ".", "1e5", "1E5", "1e", "1e+", "1e-3", "1e+3",
        "1.5e10", ".5e1", "1.e1", ".e1", "e1", "+1", "-1", "+", "-", "--1", "+-1", "1+", "inf",
        "INF", "Inf", "infinity", "Infinity", "iNfInItY", "infinit", "infinityy", "nan", "NaN",
        "NAN", "-nan", "+inf", "-infinity", "na", "nann", "1_000", "0x10", " 1", "1 ", "1,5",
        "1..2", "1.2.3", "1e1e1", "1e1.5", "١", "x", "i", "forward", "12a", "a12", "1e٣", "٣.5",
        "12345678901234567890123456789", "0.000000000000000000000000001", "1e400", "1e-400",
        "+.5", "-.5e-5", "+.", "-e5", "infe5", "nan.", ".nan", "1f", "1d", "1f64",
    ];
    for s in samples {
        assert_eq!(number_literal(&text(s)), s.parse::<f64>().is_ok(), "{:?}", s);
    }
}

#[test]
fn integers_are_read_as_the_host_reads_them() {
    let samples = [
        "", "0", "-0", "+0", "7", "-7", "+7", "007", "-007", "+", "-", "--1", "+-1", "1-", "1.0",
        "1e3", " 1", "1 ", "a", "9223372036854775807", "9223372036854775808",
        "-9223372036854775808", "-9223372036854775809", "+9223372036854775807",
        "00000000000000000000000000000000000001", "99999999999999999999999999999999999999",
        "-99999999999999999999999999999999999999", "123456789", "-123456789", "١٢", "1_0",
        "18446744073709551616", "92233720368547758070", "9223372036854775807a",
    ];
    for s in samples {
        assert_eq!(parse_integer(&text(s)), s.parse::<i64>().ok(), "{:?}", s);
    }
}

#[test]
fn integers_are_written_in_decimal() {
    for i in [0i64, 1, -1, 9, 10, 11, 99, 100, -100, 12345, -98765, i64::MAX, i64::MIN, i64::MIN + 1]
    {
        assert_eq!(string_of(&decimal(i)), i.to_string());
        assert_eq!(parse_integer(&decimal(i)), Some(i));
    }
}

#[test]
fn small_integers_are_recognised_by_their_bits() {
    for n in 0..=255u8 {
        let value = Number { bits: (n as f64).to_bits() };
        assert_eq!(value.channel(), Some(n));
        assert_eq!(rugged_turtle::number::bits_of_integer(n), (n as f64).to_bits());
    }
    assert_eq!(Number { bits: (-0.0f64).to_bits() }.channel(), Some(0));
    for other in [
        -1.0, 256.0, 0.5, 254.5, 1e-300, 255.00000000000003, 1.0000000000000002, f64::NAN,
        f64::INFINITY, f64::NEG_INFINITY, -255.0, 1e300, f64::MIN_POSITIVE, 127.99999999999999,
    ] {
        assert_eq!(Number { bits: (other as f64).to_bits() }.channel(), None, "{}", other);
    }
}

#[test]
fn numbers_are_classified_by_their_bits() {
    for value in [0.0, -0.0, 1.0, -1.5, 1e308, -1e-308, 5e-324, f64::MAX, f64::MIN] {
        let n = Number { bits: (value as f64).to_bits() };
        assert!(n.finite_value() && !n.nan_value() && !n.infinite_value(), "{}", value);
    }
    for value in [f64::INFINITY, f64::NEG_INFINITY] {
        let n = Number { bits: value.to_bits() };
        assert!(!n.finite_value() && !n.nan_value() && n.infinite_value());
    }
    for bits in [f64::NAN.to_bits(), (-f64::NAN).to_bits(), 0x7FF0_0000_0000_0001, 0xFFFF_FFFF_FFFF_FFFF] {
        let n = Number { bits };
        assert!(!n.finite_value() && n.nan_value() && !n.infinite_value());
    }
    assert!(f64::from_bits(Number::nan().bits).is_nan());
    assert_eq!(Number::nan().bits, f64::NAN.to_bits());
    assert_eq!(f64::from_bits(Number::zero().bits), 0.0);
}

#[test]
fn an_expression_is_cut_at_operators_outside_brackets() {
    let (tokens, operators) = tokenize(&text("15+9*(6+5)-x/2:3%4"));
    assert_eq!(strings(&tokens), vec!["15", "9", "(6+5)", "x", "2", "3", "4"]);
    assert_eq!(
        operators,
        vec![
            Operator::Add,
            Operator::Multiply,
            Operator::Subtract,
            Operator::Divide,
            Operator::Quotient,
            Operator::Remainder
        ]
    );
    let (tokens, operators) = tokenize(&text("-5"));
    assert_eq!(strings(&tokens), vec!["", "5"]);
    assert_eq!(operators, vec![Operator::Subtract]);
    let (tokens, operators) = tokenize(&text("1#2+3"));
    assert_eq!(strings(&tokens), vec!["1", "2", "3"]);
    assert_eq!(operators, vec![Operator::Add]);
    let (tokens, operators) = tokenize(&text("1)+2"));
    assert_eq!(strings(&tokens), vec!["1)+2"]);
    assert!(operators.is_empty());
    let (tokens, operators) = tokenize(&text(""));
    assert_eq!(strings(&tokens), vec![""]);
    assert!(operators.is_empty());
}

#[test]
fn the_body_of_an_operand_stands_between_its_outer_brackets() {
    assert_eq!(body_of(&text("(1+2)")).map(|b| string_of(&b)), Some("1+2".to_string()));
    assert_eq!(body_of(&text("((1)+(2))")).map(|b| string_of(&b)), Some("(1)+(2)".to_string()));
    assert_eq!(body_of(&text("a(b)c")).map(|b| string_of(&b)), Some("b".to_string()));
    assert_eq!(body_of(&text("()")).map(|b| string_of(&b)), Some("".to_string()));
    assert!(body_of(&text("(1")).is_none());
    assert!(body_of(&text("1)")).is_none());
    assert!(body_of(&text(")(")).is_none());
    assert!(body_of(&text("12")).is_none());
}

fn show(step: &Step) -> String {
    match step {
        Step::Constant(n) => format!("={}", f64::from_bits(n.bits)),
        Step::Literal(t) => t.clone(),
        Step::Binary(op, l, r) => format!("{:?}({},{})", op, l, r),
    }
}

#[test]
fn a_plan_lists_the_steps_in_the_order_of_the_rounds() {
    let mut turtle = Turtle::new();
    let plan = parse_number_value("2+3*4", &mut turtle);
    let steps: Vec<String> = plan.steps.iter().map(show).collect();
    assert_eq!(steps, vec!["3", "4", "Multiply(0,1)", "2", "Add(3,2)"]);
    assert_eq!(plan.result, 4);
    let plan = parse_number_value("8 / 4 / 2 * 3 % 5 : 6 - 1", &mut turtle);
    let steps: Vec<String> = plan.steps.iter().map(show).collect();
    assert_eq!(
        steps,
        vec![
            "2", "3", "Multiply(0,1)", "8", "4", "Divide(3,4)", "Divide(5,2)", "5", "6",
            "Quotient(7,8)", "Remainder(6,9)", "1", "Subtract(10,11)"
        ]
    );
    assert_eq!(plan.result, 12);
    let plan = parse_number_value("(2+3)*4", &mut turtle);
    let steps: Vec<String> = plan.steps.iter().map(show).collect();
    assert_eq!(steps, vec!["2", "3", "Add(0,1)", "4", "Multiply(2,3)"]);
    let plan = parse_number_value("7", &mut turtle);
    assert_eq!(plan.steps.iter().map(show).collect::<Vec<_>>(), vec!["7"]);
    assert_eq!(plan.result, 0);
    assert!(turtle.command_history.is_empty());
}

#[test]
fn a_plan_takes_variables_by_their_value_and_gives_up_on_the_rest() {
    let mut turtle = Turtle::new();
    turtle.set_variable(
        "x".to_string(),
        Variable {
            raw_value: "5".to_string(),
            variable_type: VariableTypes::Number { value: Number { bits: 5.0f64.to_bits() } },
            writable: true,
        },
    );
    turtle.set_variable(
        "flag".to_string(),
        Variable {
            raw_value: "true".to_string(),
            variable_type: VariableTypes::Boolean { value: true },
            writable: true,
        },
    );
    let plan = parse_number_value("x * flag + y + (1", &mut turtle);
    let steps: Vec<String> = plan.steps.iter().map(show).collect();
    assert_eq!(steps, vec!["=5", "=0", "Multiply(0,1)", "=NaN", "Add(2,3)", "=NaN", "Add(4,5)"]);
    let log: Vec<(DiagnosticKind, String)> =
        turtle.command_history.iter().map(|e| (e.kind, e.detail.clone())).collect();
    assert_eq!(
        log,
        vec![
            (DiagnosticKind::Unresolved, "y".to_string()),
            (DiagnosticKind::Unresolved, "(1".to_string())
        ]
    );
    for step in plan.steps.iter().enumerate() {
        if let (at, Step::Binary(_, l, r)) = step {
            assert!(*l < at && *r < at);
        }
    }
}

#[test]
fn a_variable_stands_for_a_number_or_a_truth_value() {
    let five = VariableTypes::Number { value: Number { bits: 5.0f64.to_bits() } };
    let yes = VariableTypes::Boolean { value: true };
    let no = VariableTypes::Boolean { value: false };
    assert_eq!(f64::from_bits(five.get_value().bits), 5.0);
    assert_eq!(yes.get_value().bits, 0);
    assert_eq!(no.get_value().bits, 0);
    assert!(yes._get_boolean());
    assert!(!no._get_boolean());
    assert!(!five._get_boolean());
    let variable =
        Variable { raw_value: "5".to_string(), variable_type: five, writable: false };
    assert_eq!(variable.clone(), variable);
    assert_eq!(Command::of(CommandKind::Help), Command::of(CommandKind::Help));
    assert_ne!(Command::of(CommandKind::Help), Command::default());
}

#[test]
fn a_turtle_is_blank_by_default_and_ready_when_new() {
    let blank = Turtle::default();
    assert!(blank.is_blank());
    assert!(!blank.is_fresh());
    assert!(Turtle::new().is_fresh());
    let mut moved = Turtle::new();
    moved.move_to(rugged_turtle::turtle::Point {
        x: rugged_turtle::number::Single { bits: 0 },
        y: rugged_turtle::number::Single { bits: 0 },
    });
    assert!(!moved.is_fresh());
    assert_eq!(moved.path[0].len(), 2);
    assert!(blank.path.is_empty() && blank.path_color.is_empty() && blank.path_width.is_empty());
    let mut new = Turtle::new();
    assert!(!new.is_blank());
    assert_eq!(new.path.len(), 1);
    assert_eq!(new.penwidth.bits, 1.0f32.to_bits());
    new.set_size(
        rugged_turtle::number::Single { bits: 3.0f32.to_bits() },
        rugged_turtle::number::Single { bits: 4.0f32.to_bits() },
    );
    assert_eq!((new.width.bits, new.height.bits), (3.0f32.to_bits(), 4.0f32.to_bits()));
    new.clear_variables();
    new.reset();
    assert_eq!(new.width.bits, 0);
    let mut other = Turtle::default();
    other.lower_pen();
    assert!(other.is_blank());
    other.lift_pen();
    assert!(!other.is_blank());
}
