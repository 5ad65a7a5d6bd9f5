use vstd::prelude::*;

verus! {

/// The direction of a `Move` instruction.
#[derive(Debug, Clone, Copy, PartialEq, Eq, Structural)]
pub enum MoveDirection {
    /// `<`: every pointer of the timeline one cell to the left.
    Left,
    /// `>`: every pointer of the timeline one cell to the right.
    Right,
    /// `^`: the pointers go to the timeline above.
    Up,
    /// `v`: the pointers go to the timeline below.
    Down,
}

/// The kind of an `Update` instruction.
#[derive(Debug, Clone, Copy, PartialEq, Eq, Structural)]
pub enum UpdateType {
    /// `+`
    Increment,
    /// `-`
    Decrement,
}

/// The kind of a `Jump` instruction.
#[derive(Debug, Clone, Copy, PartialEq, Eq, Structural)]
pub enum JumpType {
    /// `[`
    IfZero,
    /// `]`
    IfNotZero,
}

/// One instruction of a program.
#[derive(Debug, Clone, Copy, PartialEq, Eq, Structural)]
pub enum Token {
    Move(MoveDirection),
    Update(UpdateType),
    /// `[` or `]`; `index` is the position of the matching bracket.
    Jump { type_: JumpType, index: usize },
    /// `.`
    Write,
    /// `,`
    Read,
    /// `~`
    Rewind,
    /// `(`; `index` is the position of the matching `)`.
    Spawn { index: usize },
    /// `)`
    Kill,
    /// `@`
    Await,
}

/// An error met while parsing a program: a message and the position (in
/// tokens) at which it was found.
#[derive(Debug, PartialEq)]
pub struct BF5DParseError {
    message: String,
    location: usize,
}

impl BF5DParseError {
    /// The message, as characters.
    pub closed spec fn message_view(&self) -> Seq<char> {
        self.message@
    }

    /// The location.
    pub closed spec fn location_view(&self) -> usize {
        self.location
    }

    pub fn new(message: &str, location: usize) -> (r: Self)
        ensures
            r.message_view() == message@,
            r.location_view() == location,
    {
        BF5DParseError { message: message.to_string(), location }
    }

    /// The message.
    pub fn message(&self) -> (r: &str)
        ensures
            r@ == self.message_view(),
    {
        self.message.as_str()
    }

    /// The position, in instructions, at which the error was found.
    pub fn location(&self) -> (r: usize)
        ensures
            r == self.location_view(),
    {
        self.location
    }
}

} // verus!
