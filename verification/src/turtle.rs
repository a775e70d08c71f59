//! The turtle: where it stands, where it looks, its pen, and what it has drawn.

use vstd::prelude::*;
use vstd::hash_map::StringHashMap;
use crate::color::Color;
use crate::commands::{variable_views, Variable, VariableView};
use crate::diagnostics::{entries, Diagnostic, DiagnosticView};
use crate::number::Single;

verus! {

/// A point of the drawing surface.
#[derive(Clone, Copy, Debug, PartialEq, Eq, Structural)]
pub struct Point {
    pub x: Single,
    pub y: Single,
}

/// The drawing agent. `path` holds the segments drawn so far; `path_color`
/// and `path_width` hold the colour and the width of each segment.
pub struct Turtle {
    pub position: Point,
    pub width: Single,
    pub height: Single,
    /// The heading in radians.
    pub angle: Single,
    pub path: Vec<Vec<Point>>,
    pub pencolor: Color,
    pub path_color: Vec<Color>,
    pub penwidth: Single,
    pub path_width: Vec<Single>,
    pub pen_up: bool,
    pub variables: StringHashMap<Variable>,
    pub command_history: Vec<Diagnostic>,
}

/// A turtle as a mathematical value.
pub ghost struct TurtleView {
    pub position: Point,
    pub width: Single,
    pub height: Single,
    pub angle: Single,
    pub path: Seq<Seq<Point>>,
    pub pencolor: Color,
    pub path_color: Seq<Color>,
    pub penwidth: Single,
    pub path_width: Seq<Single>,
    pub pen_up: bool,
    pub variables: Map<Seq<char>, VariableView>,
    pub history: Seq<DiagnosticView>,
}

impl View for Turtle {
    type V = TurtleView;

    open spec fn view(&self) -> TurtleView {
        TurtleView {
            position: self.position,
            width: self.width,
            height: self.height,
            angle: self.angle,
            path: Seq::new(self.path@.len(), |i: int| self.path@[i]@),
            pencolor: self.pencolor,
            path_color: self.path_color@,
            penwidth: self.penwidth,
            path_width: self.path_width@,
            pen_up: self.pen_up,
            variables: variable_views(self.variables@),
            history: entries(self.command_history@),
        }
    }
}

/// The binary32 value one, the width of a new pen.
pub open spec fn unit_width() -> Single {
    Single { bits: 0x3F80_0000 }
}

/// The origin of the drawing surface.
pub open spec fn origin() -> Point {
    Point { x: Single { bits: 0 }, y: Single { bits: 0 } }
}

/// The blank turtle: nothing drawn, and no segment to draw on.
pub open spec fn blank() -> TurtleView {
    TurtleView {
        position: origin(),
        width: Single { bits: 0 },
        height: Single { bits: 0 },
        angle: Single { bits: 0 },
        path: Seq::empty(),
        pencolor: Color { r: 0, g: 0, b: 0, a: 0 },
        path_color: Seq::empty(),
        penwidth: Single { bits: 0 },
        path_width: Seq::empty(),
        pen_up: false,
        variables: Map::empty(),
        history: Seq::empty(),
    }
}

/// The new turtle: at the origin, looking along heading zero, with a black
/// pen of width one set down on a first, empty segment.
pub open spec fn fresh() -> TurtleView {
    TurtleView {
        position: origin(),
        width: Single { bits: 0 },
        height: Single { bits: 0 },
        angle: Single { bits: 0 },
        path: seq![Seq::empty()],
        pencolor: Color { r: 0, g: 0, b: 0, a: 255 },
        path_color: seq![Color { r: 0, g: 0, b: 0, a: 255 }],
        penwidth: unit_width(),
        path_width: seq![unit_width()],
        pen_up: false,
        variables: Map::empty(),
        history: Seq::empty(),
    }
}

impl TurtleView {
    /// Every segment has a colour and a width: the three lists are equally long.
    pub open spec fn well_formed(self) -> bool {
        self.path.len() == self.path_color.len() == self.path_width.len()
    }

    /// The turtle after a move to `target`: with the pen down, the last
    /// segment gains the place it left and the place it reached; with the
    /// pen up, or with no segment to draw on, nothing is drawn.
    pub open spec fn moved_to(self, target: Point) -> TurtleView {
        TurtleView {
            position: target,
            path: if self.pen_up || self.path.len() == 0 {
                self.path
            } else {
                self.path.update(
                    self.path.len() - 1,
                    self.path.last().push(self.position).push(target),
                )
            },
            ..self
        }
    }

    /// The turtle with a new, empty segment for the pen as it is.
    pub open spec fn with_new_segment(self) -> TurtleView {
        TurtleView {
            path: self.path.push(Seq::empty()),
            path_color: self.path_color.push(self.pencolor),
            path_width: self.path_width.push(self.penwidth),
            ..self
        }
    }

    /// The turtle with the pen set down: it gets a new segment if it has one already.
    pub open spec fn with_pen_down(self) -> TurtleView {
        let down = TurtleView { pen_up: false, ..self };
        if self.path.len() > 0 {
            down.with_new_segment()
        } else {
            down
        }
    }

    /// The turtle with one more entry in its log.
    pub open spec fn with_report(self, entry: DiagnosticView) -> TurtleView {
        TurtleView { history: self.history.push(entry), ..self }
    }

    /// The turtle with the variable `name` set to `variable`.
    pub open spec fn with_variable(self, name: Seq<char>, variable: VariableView) -> TurtleView {
        TurtleView { variables: self.variables.insert(name, variable), ..self }
    }
}

impl Turtle {
    /// Every segment has a colour and a width.
    pub open spec fn well_formed(&self) -> bool {
        self@.well_formed()
    }

    /// A new turtle, ready to draw.
    pub fn new() -> (t: Turtle)
        ensures
            t@ == fresh(),
            t.well_formed(),
    {
        let mut path: Vec<Vec<Point>> = Vec::new();
        path.push(Vec::new());
        let mut path_color: Vec<Color> = Vec::new();
        path_color.push(Color::black());
        let mut path_width: Vec<Single> = Vec::new();
        path_width.push(Single { bits: 0x3F80_0000 });
        let t = Turtle {
            position: Point { x: Single { bits: 0 }, y: Single { bits: 0 } },
            width: Single { bits: 0 },
            height: Single { bits: 0 },
            angle: Single { bits: 0 },
            path,
            pencolor: Color::black(),
            path_color,
            penwidth: Single { bits: 0x3F80_0000 },
            path_width,
            pen_up: false,
            variables: StringHashMap::new(),
            command_history: Vec::new(),
        };
        assert(t@.path =~= fresh().path);
        assert(t@.path_color =~= fresh().path_color);
        assert(t@.path_width =~= fresh().path_width);
        assert(t@.variables =~= fresh().variables);
        assert(t@.history =~= fresh().history);
        t
    }

    /// Puts the turtle at the given place without drawing.
    pub fn set_position(&mut self, x: Single, y: Single)
        ensures
            final(self)@ == (TurtleView { position: Point { x, y }, ..old(self)@ }),
    {
        self.position = Point { x, y };
    }

    /// Sets the size at which the turtle is shown.
    pub fn set_size(&mut self, width: Single, height: Single)
        ensures
            final(self)@ == (TurtleView { width, height, ..old(self)@ }),
    {
        self.width = width;
        self.height = height;
    }

    /// Moves the turtle to `target`, drawing the line if the pen is down.
    pub fn move_to(&mut self, target: Point)
        ensures
            final(self)@ == old(self)@.moved_to(target),
            old(self).well_formed() ==> final(self).well_formed(),
    {
        let from = self.position;
        if !self.pen_up && self.path.len() > 0 {
            let mut segment = self.path.pop().unwrap();
            segment.push(from);
            segment.push(target);
            self.path.push(segment);
        }
        self.position = target;
        assert(self@.path =~= old(self)@.moved_to(target).path);
    }

    /// Turns the turtle to the given heading.
    pub fn turn_to(&mut self, heading: Single)
        ensures
            final(self)@ == (TurtleView { angle: heading, ..old(self)@ }),
    {
        self.angle = heading;
    }

    /// Opens a new, empty segment with the pen as it is now.
    fn open_segment(&mut self)
        ensures
            final(self)@ == old(self)@.with_new_segment(),
    {
        self.path.push(Vec::new());
        self.path_color.push(self.pencolor);
        self.path_width.push(self.penwidth);
        assert(self@.path =~= old(self)@.with_new_segment().path);
    }

    /// Takes the given colour for the pen and opens a new segment for it.
    pub fn set_pencolor(&mut self, color: Color)
        ensures
            final(self)@ == (TurtleView { pencolor: color, ..old(self)@ }).with_new_segment(),
            old(self).well_formed() ==> final(self).well_formed(),
    {
        self.pencolor = color;
        self.open_segment();
    }

    /// Takes the given width for the pen and opens a new segment for it.
    pub fn set_penwidth(&mut self, width: Single)
        ensures
            final(self)@ == (TurtleView { penwidth: width, ..old(self)@ }).with_new_segment(),
            old(self).well_formed() ==> final(self).well_formed(),
    {
        self.penwidth = width;
        self.open_segment();
    }

    /// Lifts the pen: moves no longer draw.
    pub fn lift_pen(&mut self)
        ensures
            final(self)@ == (TurtleView { pen_up: true, ..old(self)@ }),
    {
        self.pen_up = true;
    }

    /// Sets the pen down. Where the turtle has a segment, a new one is
    /// opened; a turtle without any segment gets none.
    pub fn lower_pen(&mut self)
        ensures
            final(self)@ == old(self)@.with_pen_down(),
            old(self).well_formed() ==> final(self).well_formed(),
    {
        self.pen_up = false;
        if self.path.len() > 0 {
            self.open_segment();
        }
    }

    /// Appends an entry to the log.
    pub fn report(&mut self, entry: Diagnostic)
        ensures
            final(self)@ == old(self)@.with_report(entry@),
    {
        self.command_history.push(entry);
        assert(self@.history =~= old(self)@.history.push(entry@));
    }

    /// Empties the log.
    pub fn clear_history(&mut self)
        ensures
            final(self)@ == (TurtleView { history: Seq::empty(), ..old(self)@ }),
    {
        self.command_history.clear();
        assert(self@.history =~= Seq::<DiagnosticView>::empty());
    }

    /// Sets the variable `name`, whether or not it exists.
    pub fn set_variable(&mut self, name: String, variable: Variable)
        ensures
            final(self)@ == old(self)@.with_variable(name@, variable@),
    {
        self.variables.insert(name, variable);
        assert(self@.variables =~= old(self)@.variables.insert(name@, variable@));
    }

    /// Removes every variable.
    pub fn clear_variables(&mut self)
        ensures
            final(self)@ == (TurtleView { variables: Map::empty(), ..old(self)@ }),
    {
        self.variables.clear();
        assert(self@.variables =~= Map::<Seq<char>, VariableView>::empty());
    }

    /// Replaces the turtle by a new one: the drawing, the variables and the
    /// log are gone.
    pub fn reset(&mut self)
        ensures
            final(self)@ == fresh(),
            final(self).well_formed(),
    {
        *self = Turtle::new();
    }

    /// Tells whether the turtle is as a new one is.
    pub fn is_fresh(&self) -> (b: bool)
        ensures
            b == (self@ == fresh()),
    {
        let b = self.position.x.bits == 0 && self.position.y.bits == 0 && self.width.bits == 0
            && self.height.bits == 0 && self.angle.bits == 0 && self.path.len() == 1
            && self.path[0].len() == 0 && self.pencolor.r == 0 && self.pencolor.g == 0
            && self.pencolor.b == 0 && self.pencolor.a == 255 && self.path_color.len() == 1
            && self.path_color[0].r == 0 && self.path_color[0].g == 0 && self.path_color[0].b == 0
            && self.path_color[0].a == 255 && self.penwidth.bits == 0x3F80_0000
            && self.path_width.len() == 1 && self.path_width[0].bits == 0x3F80_0000
            && !self.pen_up && self.variables.is_empty() && self.command_history.len() == 0;
        proof {
            if b {
                assert(self@.path[0] =~= Seq::<Point>::empty());
                assert(self@.path =~= fresh().path);
                assert(self@.path_color =~= fresh().path_color);
                assert(self@.path_width =~= fresh().path_width);
                assert(self@.variables =~= fresh().variables);
                assert(self@.history =~= fresh().history);
            } else if self@ == fresh() {
                assert(self@.path.len() == 1);
                assert(self@.path[0].len() == 0);
                assert(self@.path_color[0] == fresh().path_color[0]);
                assert(self@.path_width[0] == fresh().path_width[0]);
                assert(self@.history.len() == 0);
                assert(self.variables@.dom() =~= self@.variables.dom());
            }
        }
        b
    }

    /// Tells whether the turtle is the blank one.
    pub fn is_blank(&self) -> (b: bool)
        ensures
            b == (self@ == blank()),
    {
        let b = self.position.x.bits == 0 && self.position.y.bits == 0 && self.width.bits == 0
            && self.height.bits == 0 && self.angle.bits == 0 && self.path.len() == 0
            && self.pencolor.r == 0 && self.pencolor.g == 0 && self.pencolor.b == 0
            && self.pencolor.a == 0 && self.path_color.len() == 0 && self.penwidth.bits == 0
            && self.path_width.len() == 0 && !self.pen_up && self.variables.is_empty()
            && self.command_history.len() == 0;
        proof {
            if b {
                assert(self@.path =~= blank().path);
                assert(self@.path_color =~= blank().path_color);
                assert(self@.path_width =~= blank().path_width);
                assert(self@.variables =~= blank().variables);
                assert(self@.history =~= blank().history);
            } else if self@ == blank() {
                assert(self@.path.len() == 0);
                assert(self@.history.len() == 0);
                assert(self.variables@.dom() =~= self@.variables.dom());
            }
        }
        b
    }
}

impl Default for Turtle {
    /// The blank turtle.
    fn default() -> (t: Turtle)
        ensures
            t@ == blank(),
            t.well_formed(),
    {
        let t = Turtle {
            position: Point { x: Single { bits: 0 }, y: Single { bits: 0 } },
            width: Single { bits: 0 },
            height: Single { bits: 0 },
            angle: Single { bits: 0 },
            path: Vec::new(),
            pencolor: Color { r: 0, g: 0, b: 0, a: 0 },
            path_color: Vec::new(),
            penwidth: Single { bits: 0 },
            path_width: Vec::new(),
            pen_up: false,
            variables: StringHashMap::new(),
            command_history: Vec::new(),
        };
        assert(t@.path =~= blank().path);
        assert(t@.variables =~= blank().variables);
        assert(t@.history =~= blank().history);
        t
    }
}

/// A move with the pen down, on a turtle that has a segment, adds exactly
/// two points to the last segment: the place that the turtle left and the
/// place that it reached. No other segment changes, and no segment is added.
pub proof fn lemma_move_draws_two_points(turtle: TurtleView, target: Point)
    requires
        !turtle.pen_up,
        turtle.path.len() > 0,
    ensures
        turtle.moved_to(target).position == target,
        turtle.moved_to(target).path.len() == turtle.path.len(),
        turtle.moved_to(target).path.last() == turtle.path.last() + seq![turtle.position, target],
        turtle.moved_to(target).path.last().len() == turtle.path.last().len() + 2,
        forall|i: int|
            0 <= i < turtle.path.len() - 1 ==> turtle.moved_to(target).path[i] == turtle.path[i],
{
    assert(turtle.path.last().push(turtle.position).push(target) =~= turtle.path.last()
        + seq![turtle.position, target]);
}

/// A move with the pen up draws nothing.
pub proof fn lemma_move_with_pen_up_draws_nothing(turtle: TurtleView, target: Point)
    requires
        turtle.pen_up,
    ensures
        turtle.moved_to(target) == (TurtleView { position: target, ..turtle }),
{
}

/// Every operation on a turtle leaves its segments, their colours and their
/// widths equally many.
pub proof fn lemma_operations_keep_segments(
    turtle: TurtleView,
    target: Point,
    entry: DiagnosticView,
    name: Seq<char>,
    variable: VariableView,
)
    requires
        turtle.well_formed(),
    ensures
        turtle.moved_to(target).well_formed(),
        turtle.with_new_segment().well_formed(),
        turtle.with_pen_down().well_formed(),
        turtle.with_report(entry).well_formed(),
        turtle.with_variable(name, variable).well_formed(),
        fresh().well_formed(),
        blank().well_formed(),
{
}

} // verus!
