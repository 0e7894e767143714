use vstd::prelude::*;

use crate::square::Square;

verus! {

/// The shape of one way a piece may move.
#[derive(Debug, Clone, Copy, PartialEq, Eq, PartialOrd, Ord, Structural)]
pub enum MoveType {
    Normal,
    LineOfSight,
    PawnSingleMove,
    PawnDoubleMove,
    PawnCapture,
    Castling,
}

/// A declarative move rule: a shape together with a file and rank offset.
#[derive(Debug, Clone, Copy, PartialEq, Eq, Structural)]
pub struct MoveRule {
    pub move_type: MoveType,
    pub x_offset: i8,
    pub y_offset: i8,
}

impl MoveRule {
    pub fn normal(x: i8, y: i8) -> (r: Self)
        ensures
            r == (MoveRule { move_type: MoveType::Normal, x_offset: x, y_offset: y }),
    {
        Self::new(MoveType::Normal, x, y)
    }

    pub fn line_of_sight(x: i8, y: i8) -> (r: Self)
        ensures
            r == (MoveRule { move_type: MoveType::LineOfSight, x_offset: x, y_offset: y }),
    {
        Self::new(MoveType::LineOfSight, x, y)
    }

    pub fn pawn_capture(x: i8, y: i8) -> (r: Self)
        ensures
            r == (MoveRule { move_type: MoveType::PawnCapture, x_offset: x, y_offset: y }),
    {
        Self::new(MoveType::PawnCapture, x, y)
    }

    pub fn pawn_single_move(y: i8) -> (r: Self)
        ensures
            r == (MoveRule { move_type: MoveType::PawnSingleMove, x_offset: 0, y_offset: y }),
    {
        Self::new(MoveType::PawnSingleMove, 0, y)
    }

    pub fn pawn_double_move(y: i8) -> (r: Self)
        ensures
            r == (MoveRule { move_type: MoveType::PawnDoubleMove, x_offset: 0, y_offset: y }),
    {
        Self::new(MoveType::PawnDoubleMove, 0, y)
    }

    pub fn castling(x: i8) -> (r: Self)
        ensures
            r == (MoveRule { move_type: MoveType::Castling, x_offset: x, y_offset: 0 }),
    {
        Self::new(MoveType::Castling, x, 0)
    }

    pub fn new(move_type: MoveType, x_offset: i8, y_offset: i8) -> (r: Self)
        ensures
            r == (MoveRule { move_type, x_offset, y_offset }),
    {
        Self { move_type, x_offset, y_offset }
    }
}

/// One concrete move produced by generation: its shape and its destination.
#[derive(Debug, Clone, Copy, PartialEq, Eq, Structural)]
pub struct PieceMove {
    pub move_type: MoveType,
    pub target: Square,
}

} // verus!
