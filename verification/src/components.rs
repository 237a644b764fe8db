//! The component types that entities of the game carry.
//!
//! Positions and velocities are whole grid cells. Coordinates saturate at the
//! ends of the `i32` range instead of wrapping.

use vstd::prelude::*;
use crate::render::{AssetCommand, RenderAssetCommands};

verus! {

/// Handle of an entity: the bit pattern of its `hecs::Entity`.
#[derive(Clone, Copy, Debug, PartialEq, Eq, Hash, Structural)]
pub struct EntityId(pub u64);

/// A vector on the grid, in whole cells.
#[derive(Clone, Copy, Debug, PartialEq, Eq, Hash, Structural)]
pub struct GridVec {
    pub x: i32,
    pub y: i32,
}

/// `a + b`, held inside the range of `i32`.
pub open spec fn clamped_sum(a: int, b: int) -> int {
    if a + b > i32::MAX {
        i32::MAX as int
    } else if a + b < i32::MIN {
        i32::MIN as int
    } else {
        a + b
    }
}

/// Adds two coordinates, saturating at the ends of the `i32` range.
pub fn add_coord(a: i32, b: i32) -> (sum: i32)
    ensures
        sum == clamped_sum(a as int, b as int),
{
    let wide: i64 = a as i64 + b as i64;
    if wide > i32::MAX as i64 {
        i32::MAX
    } else if wide < i32::MIN as i64 {
        i32::MIN
    } else {
        wide as i32
    }
}

impl GridVec {
    /// The vector with the coordinates `x` and `y`.
    pub fn new(x: i32, y: i32) -> (v: GridVec)
        ensures
            v == (GridVec { x, y }),
    {
        GridVec { x, y }
    }

    /// The component-wise saturating sum of two vectors.
    pub open spec fn plus(self, other: GridVec) -> GridVec {
        GridVec {
            x: clamped_sum(self.x as int, other.x as int) as i32,
            y: clamped_sum(self.y as int, other.y as int) as i32,
        }
    }

    /// Whether `other` is the exact negation of `self`.
    pub open spec fn is_negation_of(self, other: GridVec) -> bool {
        self.x + other.x == 0 && self.y + other.y == 0
    }

    /// Adds two vectors, each coordinate saturating at the ends of the
    /// `i32` range.
    pub fn add(self, other: GridVec) -> (sum: GridVec)
        ensures
            sum == self.plus(other),
    {
        GridVec { x: add_coord(self.x, other.x), y: add_coord(self.y, other.y) }
    }

    /// Tells whether two vectors are the exact negation of one another.
    pub fn negates(self, other: GridVec) -> (b: bool)
        ensures
            b == self.is_negation_of(other),
    {
        self.x as i64 + other.x as i64 == 0 && self.y as i64 + other.y as i64 == 0
    }
}

/// Where an entity stands on the grid.
#[derive(Clone, Copy, Debug, PartialEq, Eq, Structural)]
pub struct Position(pub GridVec);

/// How far an entity moves in one step: a unit vector along an axis, or zero
/// at rest.
#[derive(Clone, Copy, Debug, PartialEq, Eq, Structural)]
pub struct Velocity(pub GridVec);

/// One of the four ways the head can face.
#[derive(Clone, Copy, Debug, PartialEq, Eq, Structural)]
pub enum Direction {
    Up,
    Down,
    Left,
    Right,
}

impl Direction {
    /// The unit vector of a direction.
    pub open spec fn unit(self) -> GridVec {
        match self {
            Direction::Up => GridVec { x: 0, y: 1 },
            Direction::Down => GridVec { x: 0, y: -1i32 },
            Direction::Left => GridVec { x: -1i32, y: 0 },
            Direction::Right => GridVec { x: 1, y: 0 },
        }
    }

    /// The velocity of an entity that goes this way.
    pub fn velocity(self) -> (v: GridVec)
        ensures
            v == self.unit(),
    {
        match self {
            Direction::Up => GridVec { x: 0, y: 1 },
            Direction::Down => GridVec { x: 0, y: -1 },
            Direction::Left => GridVec { x: -1, y: 0 },
            Direction::Right => GridVec { x: 1, y: 0 },
        }
    }
}

/// The direction the head will take at the next velocity update.
#[derive(Clone, Copy, Debug, PartialEq, Eq, Structural)]
pub struct HeadDirection(pub Direction);

impl Default for HeadDirection {
    /// A head faces up until it is told otherwise.
    fn default() -> (d: HeadDirection)
        ensures
            d == HeadDirection(Direction::Up),
    {
        HeadDirection(Direction::Up)
    }
}

/// Marks the head of the snake.
#[derive(Clone, Copy, Debug, PartialEq, Eq, Structural)]
pub struct Snake;

/// Marks an entity as food.
#[derive(Clone, Copy, Debug, PartialEq, Eq, Structural)]
pub struct Food;

/// Marks the text entity that shows the score.
#[derive(Clone, Copy, Debug, PartialEq, Eq, Structural)]
pub struct Score;

/// A body segment: its number, counted from 1 next to the head, and the
/// entity it follows.
#[derive(Clone, Copy, Debug, PartialEq, Eq, Structural)]
pub struct Tail {
    pub segment: u32,
    pub ahead: EntityId,
}

/// What running into an entity means.
#[derive(Clone, Copy, Debug, PartialEq, Eq, Structural)]
pub enum CollisionKind {
    Food,
    Snake,
}

/// Marks an entity as something the head can run into.
#[derive(Clone, Copy, Debug, PartialEq, Eq, Structural)]
pub struct Collision {
    pub kind: CollisionKind,
}

impl Collision {
    /// The mark of a part of the snake.
    pub fn snake() -> (c: Collision)
        ensures
            c == (Collision { kind: CollisionKind::Snake }),
    {
        Collision { kind: CollisionKind::Snake }
    }

    /// The mark of food.
    pub fn food() -> (c: Collision)
        ensures
            c == (Collision { kind: CollisionKind::Food }),
    {
        Collision { kind: CollisionKind::Food }
    }
}

/// Name of the material an entity is drawn with.
#[derive(Clone, Debug)]
pub struct Material(pub String);

/// Name of the mesh an entity is drawn with.
#[derive(Clone, Debug)]
pub struct Mesh(pub String);

/// A line of text to draw, and the font to draw it with.
#[derive(Clone, Debug)]
pub struct Text {
    text: String,
    font: String,
}

/// A `Text` as specifications see it.
pub struct TextView {
    pub text: Seq<char>,
    pub font: Seq<char>,
}

impl View for Text {
    type V = TextView;

    closed spec fn view(&self) -> TextView {
        TextView { text: self.text@, font: self.font@ }
    }
}

impl Text {
    /// A line of text in a font.
    pub fn new(text: String, font: String) -> (t: Text)
        ensures
            t@ == (TextView { text: text@, font: font@ }),
    {
        Text { text, font }
    }

    /// What the text reads.
    pub fn text(&self) -> (s: &String)
        ensures
            s@ == self@.text,
    {
        &self.text
    }

    /// The name of the font.
    pub fn font(&self) -> (s: &String)
        ensures
            s@ == self@.font,
    {
        &self.font
    }

    /// Replaces the line of text, and returns the command that tells the
    /// renderer to do the same.
    pub fn update_text(&mut self, new_text: String) -> (cmd: RenderAssetCommands)
        ensures
            final(self)@ == (TextView { text: new_text@, font: old(self)@.font }),
            cmd@ == (AssetCommand::UpdateText {
                new_text: new_text@,
                text: old(self)@.text,
                font: old(self)@.font,
            }),
    {
        let cmd = RenderAssetCommands::UpdateText {
            new_text: new_text.clone(),
            text: self.text.clone(),
            font: self.font.clone(),
        };
        self.text = new_text;
        cmd
    }
}

/// What the player asked for during one frame.
#[derive(Clone, Copy, Debug, PartialEq, Eq, Structural)]
pub struct Input {
    pub go_left: bool,
    pub go_right: bool,
    pub go_up: bool,
    pub go_down: bool,
}

impl Input {
    /// The direction an input asks for: left before right before up before
    /// down, where several are held at once.
    pub open spec fn wanted(self) -> Option<Direction> {
        if self.go_left {
            Some(Direction::Left)
        } else if self.go_right {
            Some(Direction::Right)
        } else if self.go_up {
            Some(Direction::Up)
        } else if self.go_down {
            Some(Direction::Down)
        } else {
            None
        }
    }

    /// The direction the player asked for, if any.
    pub fn direction(&self) -> (d: Option<Direction>)
        ensures
            d == self.wanted(),
    {
        if self.go_left {
            Some(Direction::Left)
        } else if self.go_right {
            Some(Direction::Right)
        } else if self.go_up {
            Some(Direction::Up)
        } else if self.go_down {
            Some(Direction::Down)
        } else {
            None
        }
    }
}

impl Default for Input {
    /// The input of a frame in which no key was pressed.
    fn default() -> (input: Input)
        ensures
            input == (Input { go_left: false, go_right: false, go_up: false, go_down: false }),
    {
        Input { go_left: false, go_right: false, go_up: false, go_down: false }
    }
}

impl View for Position {
    type V = Position;

    open spec fn view(&self) -> Position {
        *self
    }
}

impl View for Velocity {
    type V = Velocity;

    open spec fn view(&self) -> Velocity {
        *self
    }
}

impl View for HeadDirection {
    type V = HeadDirection;

    open spec fn view(&self) -> HeadDirection {
        *self
    }
}

impl View for Snake {
    type V = Snake;

    open spec fn view(&self) -> Snake {
        *self
    }
}

impl View for Food {
    type V = Food;

    open spec fn view(&self) -> Food {
        *self
    }
}

impl View for Score {
    type V = Score;

    open spec fn view(&self) -> Score {
        *self
    }
}

impl View for Tail {
    type V = Tail;

    open spec fn view(&self) -> Tail {
        *self
    }
}

impl View for Collision {
    type V = Collision;

    open spec fn view(&self) -> Collision {
        *self
    }
}

impl View for Material {
    type V = Seq<char>;

    open spec fn view(&self) -> Seq<char> {
        self.0@
    }
}

impl View for Mesh {
    type V = Seq<char>;

    open spec fn view(&self) -> Seq<char> {
        self.0@
    }
}

} // verus!
