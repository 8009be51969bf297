//! Why the library turns a request down.
use vstd::prelude::*;

verus! {

/// The reasons for which an operation is refused.
#[derive(Clone, Copy, Debug, PartialEq, Eq, Structural, Hash)]
pub enum ErrorKind {
    /// No tile stands at the given index of the hand.
    IndexOutOfRange,
    /// The kind is not one of the game's kinds.
    UnknownKind,
    /// The game is over.
    GameOver,
    /// The player does not exist or it is not the player's turn.
    WrongTurn,
    /// The location is not on the board.
    IllegalLocation,
    /// A tile already lies at the location.
    Occupied,
    /// The port is not a start port on the boundary of the board.
    IllegalPort,
    /// The player has already placed a token.
    TokenPlaced,
    /// The player has not placed a token yet.
    TokenMissing,
    /// The tile shows no connections.
    HiddenTile,
    /// The player still holds tiles.
    TilesLeft,
    /// No more players can be counted.
    TooManyPlayers,
    /// The session has not begun.
    NotStarted,
    /// The session has already begun.
    AlreadyStarted,
    /// The tiles of the game cannot be dealt.
    NotPlayable,
    /// The values belong to different variants of their families.
    VariantMismatch,
}

} // verus!
