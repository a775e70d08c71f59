//! Variables, the command table, and the shape of a statement.

use vstd::prelude::*;
pub use crate::execution::execute_command;
use crate::number::Number;
use crate::parsing::{
    chars_of,
    contains_char,
    copy_text,
    find_first,
    find_last,
    first_index,
    last_index,
    lemma_first_index,
    lemma_last_index,
    pieces,
    same_text,
    slice,
    split,
    strip_whitespace,
    texts,
    total_len,
    without_whitespace,
};

verus! {

/// What a variable holds.
#[derive(Clone, Copy, Debug, PartialEq, Eq, Structural)]
#[allow(inconsistent_fields)]
pub enum VariableTypes {
    Boolean { value: bool },
    Number { value: Number },
}

impl VariableTypes {
    /// The number that the variable stands for in an expression: its value
    /// if it holds a number, and zero otherwise.
    pub open spec fn value(self) -> Number {
        match self {
            VariableTypes::Number { value } => value,
            VariableTypes::Boolean { .. } => Number { bits: 0 },
        }
    }

    /// The truth value that the variable holds: its value if it holds one,
    /// and false otherwise.
    pub open spec fn truth(self) -> bool {
        match self {
            VariableTypes::Boolean { value } => value,
            VariableTypes::Number { .. } => false,
        }
    }

    /// The truth value that the variable holds.
    pub fn _get_boolean(&self) -> (r: bool)
        ensures
            r == self.truth(),
    {
        match self {
            VariableTypes::Boolean { value } => *value,
            VariableTypes::Number { .. } => false,
        }
    }

    /// The number that the variable stands for in an expression.
    pub fn get_value(&self) -> (r: Number)
        ensures
            r == self.value(),
    {
        match self {
            VariableTypes::Number { value } => *value,
            VariableTypes::Boolean { .. } => Number { bits: 0 },
        }
    }
}

/// A variable: the text it was given as, what it holds, and whether an
/// assignment may replace it.
#[derive(Clone, Debug, PartialEq)]
pub struct Variable {
    pub raw_value: String,
    pub variable_type: VariableTypes,
    pub writable: bool,
}

/// A variable as a mathematical value.
pub ghost struct VariableView {
    pub raw_value: Seq<char>,
    pub variable_type: VariableTypes,
    pub writable: bool,
}

impl View for Variable {
    type V = VariableView;

    open spec fn view(&self) -> VariableView {
        VariableView {
            raw_value: self.raw_value@,
            variable_type: self.variable_type,
            writable: self.writable,
        }
    }
}

/// The variables of a store as mathematical values.
pub open spec fn variable_views(store: Map<Seq<char>, Variable>) -> Map<Seq<char>, VariableView> {
    Map::new(|name: Seq<char>| store.contains_key(name), |name: Seq<char>| store[name]@)
}

/// The commands of the language.
#[derive(Clone, Copy, Debug, PartialEq, Eq, Structural)]
pub enum CommandKind {
    Forward,
    RotateRight,
    RotateLeft,
    PenColor,
    PenWidth,
    PenUp,
    PenDown,
    PrintValue,
    PrintRaw,
    Clear,
    Reset,
    Repeat,
    Help,
}

/// The spellings of a command, separated by single spaces.
pub open spec fn alias_text(kind: CommandKind) -> Seq<char> {
    match kind {
        CommandKind::Forward => "e elore f fd forward"@,
        CommandKind::RotateRight => "j jobb jobbra r rt right"@,
        CommandKind::RotateLeft => "b bal balra l lt left"@,
        CommandKind::PenColor => "tsz tollszin szin pc pencolor color"@,
        CommandKind::PenWidth => "tv tollvastagsag vastagsag pw penwidth width"@,
        CommandKind::PenUp => "tf tollfel pu penup up"@,
        CommandKind::PenDown => "tl tollle pd pendown down"@,
        CommandKind::PrintValue => "kier kiertekeles kiszamolas eval calc calculate evaluate"@,
        CommandKind::PrintRaw => "ki kiir kiiratas print"@,
        CommandKind::Clear => "trl torol clr clear"@,
        CommandKind::Reset => "alaphelyzet reset default"@,
        CommandKind::Repeat => "i ism ismetles r rep repeat for"@,
        CommandKind::Help => "? segitseg help"@,
    }
}

/// `name` is one of the spellings in `aliases`.
pub open spec fn spelled_in(aliases: Seq<char>, name: Seq<char>) -> bool {
    pieces(aliases, ' ').contains(name)
}

/// The command that a name stands for: the first in the order of the table
/// that has the name among its spellings.
pub open spec fn command_of(name: Seq<char>) -> Option<CommandKind> {
    if spelled_in(alias_text(CommandKind::Forward), name) {
        Some(CommandKind::Forward)
    } else if spelled_in(alias_text(CommandKind::RotateRight), name) {
        Some(CommandKind::RotateRight)
    } else if spelled_in(alias_text(CommandKind::RotateLeft), name) {
        Some(CommandKind::RotateLeft)
    } else if spelled_in(alias_text(CommandKind::PenColor), name) {
        Some(CommandKind::PenColor)
    } else if spelled_in(alias_text(CommandKind::PenWidth), name) {
        Some(CommandKind::PenWidth)
    } else if spelled_in(alias_text(CommandKind::PenUp), name) {
        Some(CommandKind::PenUp)
    } else if spelled_in(alias_text(CommandKind::PenDown), name) {
        Some(CommandKind::PenDown)
    } else if spelled_in(alias_text(CommandKind::PrintValue), name) {
        Some(CommandKind::PrintValue)
    } else if spelled_in(alias_text(CommandKind::PrintRaw), name) {
        Some(CommandKind::PrintRaw)
    } else if spelled_in(alias_text(CommandKind::Clear), name) {
        Some(CommandKind::Clear)
    } else if spelled_in(alias_text(CommandKind::Reset), name) {
        Some(CommandKind::Reset)
    } else if spelled_in(alias_text(CommandKind::Repeat), name) {
        Some(CommandKind::Repeat)
    } else if spelled_in(alias_text(CommandKind::Help), name) {
        Some(CommandKind::Help)
    } else {
        None
    }
}

/// An entry of the command table: the spellings under which a command is known.
#[derive(Clone, Copy, Debug, PartialEq, Eq)]
pub struct Command {
    aliases: &'static str,
}

impl Command {
    /// The spellings, separated by single spaces.
    pub closed spec fn aliases(&self) -> Seq<char> {
        self.aliases@
    }

    /// The table's entry for a command.
    pub fn of(kind: CommandKind) -> (c: Command)
        ensures
            c.aliases() == alias_text(kind),
    {
        let aliases = match kind {
            CommandKind::Forward => "e elore f fd forward",
            CommandKind::RotateRight => "j jobb jobbra r rt right",
            CommandKind::RotateLeft => "b bal balra l lt left",
            CommandKind::PenColor => "tsz tollszin szin pc pencolor color",
            CommandKind::PenWidth => "tv tollvastagsag vastagsag pw penwidth width",
            CommandKind::PenUp => "tf tollfel pu penup up",
            CommandKind::PenDown => "tl tollle pd pendown down",
            CommandKind::PrintValue => "kier kiertekeles kiszamolas eval calc calculate evaluate",
            CommandKind::PrintRaw => "ki kiir kiiratas print",
            CommandKind::Clear => "trl torol clr clear",
            CommandKind::Reset => "alaphelyzet reset default",
            CommandKind::Repeat => "i ism ismetles r rep repeat for",
            CommandKind::Help => "? segitseg help",
        };
        Command { aliases }
    }

    /// Tells whether `name` is one of the spellings of the command.
    pub fn accepts(&self, name: &Vec<char>) -> (b: bool)
        ensures
            b == spelled_in(self.aliases(), name@),
    {
        let all = chars_of(self.aliases);
        let spellings = split(&all, ' ');
        let mut i: usize = 0;
        while i < spellings.len()
            invariant
                i <= spellings.len(),
                texts(spellings@) == pieces(self.aliases(), ' '),
                forall|j: int| 0 <= j < i ==> texts(spellings@)[j] != name@,
            decreases spellings.len() - i,
        {
            if same_text(&spellings[i], name) {
                assert(texts(spellings@)[i as int] == name@);
                return true;
            }
            i += 1;
        }
        false
    }
}

impl Default for Command {
    /// An entry without any spelling.
    fn default() -> (c: Command)
        ensures
            c.aliases() == ""@,
    {
        Command { aliases: "" }
    }
}

/// The command that a name stands for.
pub fn lookup(name: &Vec<char>) -> (r: Option<CommandKind>)
    ensures
        r == command_of(name@),
{
    if Command::of(CommandKind::Forward).accepts(name) {
        Some(CommandKind::Forward)
    } else if Command::of(CommandKind::RotateRight).accepts(name) {
        Some(CommandKind::RotateRight)
    } else if Command::of(CommandKind::RotateLeft).accepts(name) {
        Some(CommandKind::RotateLeft)
    } else if Command::of(CommandKind::PenColor).accepts(name) {
        Some(CommandKind::PenColor)
    } else if Command::of(CommandKind::PenWidth).accepts(name) {
        Some(CommandKind::PenWidth)
    } else if Command::of(CommandKind::PenUp).accepts(name) {
        Some(CommandKind::PenUp)
    } else if Command::of(CommandKind::PenDown).accepts(name) {
        Some(CommandKind::PenDown)
    } else if Command::of(CommandKind::PrintValue).accepts(name) {
        Some(CommandKind::PrintValue)
    } else if Command::of(CommandKind::PrintRaw).accepts(name) {
        Some(CommandKind::PrintRaw)
    } else if Command::of(CommandKind::Clear).accepts(name) {
        Some(CommandKind::Clear)
    } else if Command::of(CommandKind::Reset).accepts(name) {
        Some(CommandKind::Reset)
    } else if Command::of(CommandKind::Repeat).accepts(name) {
        Some(CommandKind::Repeat)
    } else if Command::of(CommandKind::Help).accepts(name) {
        Some(CommandKind::Help)
    } else {
        None
    }
}

/// How many more `{` than `}` a text holds.
pub open spec fn net_braces(t: Seq<char>) -> int
    decreases t.len(),
{
    if t.len() == 0 {
        0
    } else if t.last() == '{' {
        net_braces(t.drop_last()) + 1
    } else if t.last() == '}' {
        net_braces(t.drop_last()) - 1
    } else {
        net_braces(t.drop_last())
    }
}

/// The state of the chainer between two pieces of a program.
pub ghost struct Chaining {
    /// The statements that are complete.
    pub statements: Seq<Seq<char>>,
    /// The pieces of the statement that is still open, joined by `;`.
    pub pending: Seq<char>,
    /// How many blocks are open.
    pub depth: int,
}

/// `pending` with the piece `t` joined on; an empty piece adds nothing.
pub open spec fn joined(pending: Seq<char>, t: Seq<char>) -> Seq<char> {
    if t.len() == 0 {
        pending
    } else if pending.len() == 0 {
        t
    } else {
        pending.push(';') + t
    }
}

/// The statements with `t` added, unless `t` is empty.
pub open spec fn with_statement(statements: Seq<Seq<char>>, t: Seq<char>) -> Seq<Seq<char>> {
    if t.len() == 0 {
        statements
    } else {
        statements.push(t)
    }
}

/// Takes one piece into the chain. A piece with a brace in it, or one that
/// comes while a block is open, joins the open statement, which is complete
/// when the depth is back at zero. Any other piece is a statement by itself.
pub open spec fn chain_step(c: Chaining, t: Seq<char>) -> Chaining {
    if t.contains('{') || t.contains('}') || c.depth > 0 {
        let depth = c.depth + net_braces(t);
        let pending = joined(c.pending, t);
        if depth == 0 {
            Chaining {
                statements: with_statement(c.statements, pending),
                pending: Seq::empty(),
                depth,
            }
        } else {
            Chaining { statements: c.statements, pending, depth }
        }
    } else {
        Chaining { statements: with_statement(c.statements, t), ..c }
    }
}

/// Takes the pieces into the chain, one after the other.
pub open spec fn chain_all(tokens: Seq<Seq<char>>) -> Chaining
    decreases tokens.len(),
{
    if tokens.len() == 0 {
        Chaining { statements: Seq::empty(), pending: Seq::empty(), depth: 0 }
    } else {
        chain_step(chain_all(tokens.drop_last()), tokens.last())
    }
}

/// The statements of a program: whitespace is dropped, the text is cut at
/// every `;`, and the pieces of a block are joined again. A statement whose
/// block is never closed is left out.
pub open spec fn statements_of(text: Seq<char>) -> Seq<Seq<char>> {
    chain_all(pieces(without_whitespace(text), ';')).statements
}

/// A text cannot hold more braces than characters.
pub proof fn lemma_net_braces_bound(t: Seq<char>)
    ensures
        -(t.len() as int) <= net_braces(t) <= t.len(),
    decreases t.len(),
{
    if t.len() > 0 {
        lemma_net_braces_bound(t.drop_last());
    }
}

/// The first texts of a list hold no more characters than all of them.
pub proof fn lemma_total_len_take(p: Seq<Seq<char>>, n: int)
    requires
        0 <= n <= p.len(),
    ensures
        total_len(p.take(n)) <= total_len(p),
    decreases p.len() - n,
{
    if n < p.len() {
        lemma_total_len_take(p, n + 1);
        assert(p.take(n + 1).drop_last() == p.take(n));
    } else {
        assert(p.take(n) == p);
    }
}

/// The depth of the chainer is bounded by the characters it has seen.
pub proof fn lemma_chain_depth_bound(tokens: Seq<Seq<char>>)
    ensures
        -(total_len(tokens) as int) <= chain_all(tokens).depth <= total_len(tokens),
    decreases tokens.len(),
{
    if tokens.len() > 0 {
        lemma_chain_depth_bound(tokens.drop_last());
        lemma_net_braces_bound(tokens.last());
    }
}

/// A text holds a brace.
pub open spec fn has_brace(t: Seq<char>) -> bool {
    t.contains('{') || t.contains('}')
}

/// The pieces of a text hold no separator.
pub proof fn lemma_pieces_hold_no_separator(s: Seq<char>, sep: char)
    ensures
        pieces(s, sep).len() >= 1,
        forall|i: int| 0 <= i < pieces(s, sep).len() ==> !(#[trigger] pieces(s, sep)[i]).contains(sep),
    decreases s.len(),
{
    if s.len() > 0 {
        lemma_pieces_hold_no_separator(s.drop_last(), sep);
        let before = pieces(s.drop_last(), sep);
        let after = pieces(s, sep);
        assert forall|i: int| 0 <= i < after.len() implies !(#[trigger] after[i]).contains(sep) by {
            if s.last() == sep {
                if i < before.len() {
                    assert(after[i] == before[i]);
                }
            } else if i == before.len() - 1 {
                let grown = before.last().push(s.last());
                assert(after[i] == grown);
                if grown.contains(sep) {
                    let k = choose|k: int| 0 <= k < grown.len() && grown[k] == sep;
                    assert(before.last()[k] == sep);
                    assert(before[i].contains(sep));
                }
            } else {
                assert(after[i] == before[i]);
            }
        }
    }
}

proof fn lemma_joined_has_brace(pending: Seq<char>, t: Seq<char>)
    requires
        has_brace(pending) || has_brace(t),
    ensures
        has_brace(joined(pending, t)),
        joined(pending, t).len() > 0,
{
    let j = joined(pending, t);
    if t.len() > 0 && pending.len() > 0 {
        if has_brace(pending) {
            let k = choose|k: int| 0 <= k < pending.len() && (pending[k] == '{' || pending[k] == '}');
            assert(j[k] == pending[k]);
        } else {
            let k = choose|k: int| 0 <= k < t.len() && (t[k] == '{' || t[k] == '}');
            assert(j[pending.len() + 1 + k] == t[k]);
        }
    }
}

proof fn lemma_chain_shape(tokens: Seq<Seq<char>>)
    requires
        forall|i: int| 0 <= i < tokens.len() ==> !(#[trigger] tokens[i]).contains(';'),
    ensures
        chain_all(tokens).pending.len() > 0 ==> has_brace(chain_all(tokens).pending),
        chain_all(tokens).depth != 0 ==> chain_all(tokens).pending.len() > 0,
        forall|i: int|
            0 <= i < chain_all(tokens).statements.len() ==> {
                let st = #[trigger] chain_all(tokens).statements[i];
                st.len() > 0 && (has_brace(st) || !st.contains(';'))
            },
    decreases tokens.len(),
{
    if tokens.len() > 0 {
        let before = chain_all(tokens.drop_last());
        let t = tokens.last();
        assert forall|i: int| 0 <= i < tokens.drop_last().len() implies !(
        #[trigger] tokens.drop_last()[i]).contains(';') by {
            assert(tokens.drop_last()[i] == tokens[i]);
        }
        lemma_chain_shape(tokens.drop_last());
        lemma_net_braces_bound(t);
        assert(!t.contains(';'));
        if has_brace(t) || before.depth > 0 {
            lemma_joined_has_brace(before.pending, t);
        } else {
            if t.len() == 0 {
                assert(net_braces(t) == 0);
            }
        }
    }
}

/// What the chainer yields. Every statement of a program has at least one
/// character, and a statement that holds no brace holds no `;`.
pub proof fn lemma_statements_are_whole(text: Seq<char>)
    ensures
        forall|i: int|
            0 <= i < statements_of(text).len() ==> {
                let st = #[trigger] statements_of(text)[i];
                st.len() > 0 && (has_brace(st) || !st.contains(';'))
            },
{
    lemma_pieces_hold_no_separator(without_whitespace(text), ';');
    lemma_chain_shape(pieces(without_whitespace(text), ';'));
}

fn brace_balance(t: &Vec<char>) -> (r: i128)
    ensures
        r == net_braces(t@),
{
    let mut r: i128 = 0;
    let mut i: usize = 0;
    while i < t.len()
        invariant
            i <= t.len(),
            r == net_braces(t@.take(i as int)),
            -(i as int) <= r <= i,
        decreases t.len() - i,
    {
        assert(t@.take(i + 1).drop_last() == t@.take(i as int));
        if t[i] == '{' {
            r = r + 1;
        } else if t[i] == '}' {
            r = r - 1;
        }
        i += 1;
    }
    assert(t@.take(t.len() as int) == t@);
    r
}

fn join_piece(pending: &mut Vec<char>, t: &Vec<char>)
    ensures
        final(pending)@ == joined(old(pending)@, t@),
{
    if t.len() == 0 {
        return ;
    }
    if pending.len() > 0 {
        pending.push(';');
    }
    let ghost start = pending@;
    let mut i: usize = 0;
    while i < t.len()
        invariant
            i <= t.len(),
            pending@ == start + t@.take(i as int),
        decreases t.len() - i,
    {
        pending.push(t[i]);
        assert(start + t@.take(i + 1) =~= (start + t@.take(i as int)).push(t@[i as int]));
        i += 1;
    }
    assert(t@.take(t.len() as int) == t@);
    assert(Seq::<char>::empty() + t@ =~= t@);
}

fn keep_statement(statements: &mut Vec<Vec<char>>, t: Vec<char>)
    ensures
        texts(final(statements)@) == with_statement(texts(old(statements)@), t@),
{
    if t.len() > 0 {
        statements.push(t);
        assert(texts(statements@) =~= texts(old(statements)@).push(t@));
    }
}

/// Cuts a program into its statements.
pub fn chain(text: &Vec<char>) -> (r: Vec<Vec<char>>)
    ensures
        texts(r@) == statements_of(text@),
{
    let stripped = strip_whitespace(text);
    let tokens = split(&stripped, ';');
    let mut statements: Vec<Vec<char>> = Vec::new();
    let mut pending: Vec<char> = Vec::new();
    let mut depth: i128 = 0;
    let mut i: usize = 0;
    assert(texts(statements@) =~= Seq::<Seq<char>>::empty());
    while i < tokens.len()
        invariant
            i <= tokens.len(),
            total_len(texts(tokens@)) <= usize::MAX,
            texts(statements@) == chain_all(texts(tokens@).take(i as int)).statements,
            pending@ == chain_all(texts(tokens@).take(i as int)).pending,
            depth == chain_all(texts(tokens@).take(i as int)).depth,
        decreases tokens.len() - i,
    {
        proof {
            let all = texts(tokens@);
            assert(all.take(i + 1).drop_last() == all.take(i as int));
            assert(all.take(i + 1).last() == tokens@[i as int]@);
            lemma_chain_depth_bound(all.take(i as int));
            lemma_chain_depth_bound(all.take(i + 1));
            lemma_total_len_take(all, i as int);
            lemma_total_len_take(all, i + 1);
            lemma_net_braces_bound(tokens@[i as int]@);
        }
        let t = &tokens[i];
        if contains_char(t, '{') || contains_char(t, '}') || depth > 0 {
            depth = depth + brace_balance(t);
            join_piece(&mut pending, t);
            if depth == 0 {
                keep_statement(&mut statements, pending);
                pending = Vec::new();
            }
        } else {
            keep_statement(&mut statements, copy_text(t));
        }
        i += 1;
    }
    assert(texts(tokens@).take(tokens.len() as int) == texts(tokens@));
    statements
}

/// A statement, taken apart.
#[derive(Debug)]
pub enum Statement {
    /// `name=value`
    Assignment { name: Vec<char>, value: Vec<char> },
    /// `name(arguments){block}`; the brackets and the block may be missing.
    Call { name: Vec<char>, arguments: Vec<Vec<char>>, block: Option<Vec<char>> },
    /// A text that is neither.
    Malformed,
}

/// A statement as a mathematical value.
pub ghost enum StatementView {
    Assignment { name: Seq<char>, value: Seq<char> },
    Call { name: Seq<char>, arguments: Seq<Seq<char>>, block: Option<Seq<char>> },
    Malformed,
}

impl View for Statement {
    type V = StatementView;

    open spec fn view(&self) -> StatementView {
        match self {
            Statement::Assignment { name, value } => StatementView::Assignment {
                name: name@,
                value: value@,
            },
            Statement::Call { name, arguments, block } => StatementView::Call {
                name: name@,
                arguments: texts(arguments@),
                block: match block {
                    Some(b) => Some(b@),
                    None => None,
                },
            },
            Statement::Malformed => StatementView::Malformed,
        }
    }
}

/// A statement is an assignment if it holds `=` and no `;`.
pub open spec fn is_assignment(s: Seq<char>) -> bool {
    s.contains('=') && !s.contains(';')
}

/// The assignment that a statement makes: the target is what stands before
/// the first `=`, the value what stands between the first and the second.
/// Neither may be empty.
pub open spec fn assignment_of(s: Seq<char>) -> StatementView {
    let parts = pieces(s, '=');
    if parts.len() < 2 || parts[0].len() == 0 || parts[1].len() == 0 {
        StatementView::Malformed
    } else {
        StatementView::Assignment { name: parts[0], value: parts[1] }
    }
}

/// What stands before the first `{` of a statement.
pub open spec fn head_of(s: Seq<char>) -> Seq<char> {
    s.take(first_index(s, '{'))
}

/// The block of a statement: what stands between its first `{` and the last
/// `}` after it. The outer `None` marks a brace without its partner.
pub open spec fn block_of(s: Seq<char>) -> Option<Option<Seq<char>>> {
    let open = first_index(s, '{');
    if open >= s.len() {
        if s.contains('}') {
            None
        } else {
            Some(None)
        }
    } else {
        let rest = s.skip(open + 1);
        let close = last_index(rest, '}');
        if close < 0 {
            None
        } else {
            Some(Some(rest.take(close)))
        }
    }
}

/// The arguments in the text between the brackets of a call.
pub open spec fn arguments_of(inner: Seq<char>) -> Seq<Seq<char>> {
    if inner.len() == 0 {
        Seq::empty()
    } else {
        pieces(inner, ',')
    }
}

/// The call that the head of a statement makes. With brackets, the name
/// stands before the first `(` and the arguments between it and the last
/// `)`, separated by `,`. Without brackets the head is the name.
pub open spec fn call_of(head: Seq<char>, block: Option<Seq<char>>) -> StatementView {
    if head.contains('(') || head.contains(')') {
        let open = first_index(head, '(');
        let close = last_index(head, ')');
        if open >= head.len() || close < open {
            StatementView::Malformed
        } else {
            StatementView::Call {
                name: head.take(open),
                arguments: arguments_of(head.subrange(open + 1, close)),
                block,
            }
        }
    } else {
        StatementView::Call { name: head, arguments: Seq::empty(), block }
    }
}

/// A statement, taken apart.
pub open spec fn parsed(s: Seq<char>) -> StatementView {
    if is_assignment(s) {
        assignment_of(s)
    } else if block_of(s) is None {
        StatementView::Malformed
    } else {
        call_of(head_of(s), block_of(s)->0)
    }
}

fn parse_call(head: &Vec<char>, block: Option<Vec<char>>) -> (r: Statement)
    ensures
        r@ == call_of(
            head@,
            match block {
                Some(b) => Some(b@),
                None => None,
            },
        ),
{
    proof {
        lemma_first_index(head@, '(');
        lemma_last_index(head@, ')');
    }
    let open = find_first(head, '(');
    let close = find_last(head, ')');
    match open {
        None => {
            if close.is_some() {
                return Statement::Malformed;
            }
            let arguments: Vec<Vec<char>> = Vec::new();
            assert(texts(arguments@) =~= Seq::<Seq<char>>::empty());
            Statement::Call { name: copy_text(head), arguments, block }
        },
        Some(open) => {
            match close {
                None => Statement::Malformed,
                Some(close) => {
                    if close < open {
                        return Statement::Malformed;
                    }
                    let name = slice(head, 0, open);
                    let inner = slice(head, open + 1, close);
                    let arguments = if inner.len() == 0 {
                        let a: Vec<Vec<char>> = Vec::new();
                        assert(texts(a@) =~= Seq::<Seq<char>>::empty());
                        a
                    } else {
                        split(&inner, ',')
                    };
                    Statement::Call { name, arguments, block }
                },
            }
        },
    }
}

/// Takes a statement apart.
pub fn parse_statement(s: &Vec<char>) -> (r: Statement)
    ensures
        r@ == parsed(s@),
{
    if contains_char(s, '=') && !contains_char(s, ';') {
        let parts = split(s, '=');
        if parts.len() < 2 || parts[0].len() == 0 || parts[1].len() == 0 {
            return Statement::Malformed;
        }
        assert(texts(parts@)[0] == parts@[0]@ && texts(parts@)[1] == parts@[1]@);
        return Statement::Assignment { name: copy_text(&parts[0]), value: copy_text(&parts[1]) };
    }
    proof {
        lemma_first_index(s@, '{');
    }
    match find_first(s, '{') {
        None => {
            if contains_char(s, '}') {
                return Statement::Malformed;
            }
            assert(s@.take(s.len() as int) == s@);
            parse_call(s, None)
        },
        Some(open) => {
            let head = slice(s, 0, open);
            let rest = slice(s, open + 1, s.len());
            assert(rest@ == s@.skip(open + 1));
            proof {
                lemma_last_index(rest@, '}');
            }
            match find_last(&rest, '}') {
                None => Statement::Malformed,
                Some(close) => {
                    let block = slice(&rest, 0, close);
                    parse_call(&head, Some(block))
                },
            }
        },
    }
}

} // verus!
