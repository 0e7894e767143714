use vstd::prelude::*;

use crate::color::Color;
use crate::rule::MoveRule;
use crate::rule::MoveType;
use crate::square::Square;

verus! {

/// The six kinds of chess piece.
#[derive(Debug, Clone, Copy, PartialEq, Eq, PartialOrd, Ord, Structural)]
pub enum PieceType {
    Pawn,
    Rook,
    Knight,
    Bishop,
    Queen,
    King,
}

/// A piece attached to a board cell: its identity, how often it has moved,
/// and the square it was first placed on.
#[derive(Debug, Clone, Copy)]
pub struct Piece {
    pub piece_type: PieceType,
    pub color: Color,
    pub move_count: u32,
    pub last_move_turn: Option<u32>,
    pub initial_square: Square,
}

/// The fixed, ordered table of move rules for a piece of the given type and
/// color. Pawns move toward higher ranks when White and lower ranks when
/// Black; every other type moves the same way for both colors. The king's
/// table carries three castling offsets (-2, -3, +2); the -3 entry mirrors
/// the two-square entries in every check the generator applies to it.
pub open spec fn piece_rules(t: PieceType, c: Color) -> Seq<MoveRule> {
    match (t, c) {
        (PieceType::Pawn, Color::Black) => seq![
            MoveRule { move_type: MoveType::PawnSingleMove, x_offset: 0, y_offset: -1i8 },
            MoveRule { move_type: MoveType::PawnDoubleMove, x_offset: 0, y_offset: -2i8 },
            MoveRule { move_type: MoveType::PawnCapture, x_offset: -1i8, y_offset: -1i8 },
            MoveRule { move_type: MoveType::PawnCapture, x_offset: 1, y_offset: -1i8 },
        ],
        (PieceType::Pawn, Color::White) => seq![
            MoveRule { move_type: MoveType::PawnSingleMove, x_offset: 0, y_offset: 1 },
            MoveRule { move_type: MoveType::PawnDoubleMove, x_offset: 0, y_offset: 2 },
            MoveRule { move_type: MoveType::PawnCapture, x_offset: -1i8, y_offset: 1 },
            MoveRule { move_type: MoveType::PawnCapture, x_offset: 1, y_offset: 1 },
        ],
        (PieceType::Rook, _) => seq![
            MoveRule { move_type: MoveType::LineOfSight, x_offset: 1, y_offset: 0 },
            MoveRule { move_type: MoveType::LineOfSight, x_offset: -1i8, y_offset: 0 },
            MoveRule { move_type: MoveType::LineOfSight, x_offset: 0, y_offset: 1 },
            MoveRule { move_type: MoveType::LineOfSight, x_offset: 0, y_offset: -1i8 },
        ],
        (PieceType::Knight, _) => seq![
            MoveRule { move_type: MoveType::Normal, x_offset: 1, y_offset: 2 },
            MoveRule { move_type: MoveType::Normal, x_offset: 1, y_offset: -2i8 },
            MoveRule { move_type: MoveType::Normal, x_offset: -1i8, y_offset: 2 },
            MoveRule { move_type: MoveType::Normal, x_offset: -1i8, y_offset: -2i8 },
            MoveRule { move_type: MoveType::Normal, x_offset: 2, y_offset: -1i8 },
            MoveRule { move_type: MoveType::Normal, x_offset: 2, y_offset: 1 },
            MoveRule { move_type: MoveType::Normal, x_offset: -2i8, y_offset: -1i8 },
            MoveRule { move_type: MoveType::Normal, x_offset: -2i8, y_offset: 1 },
        ],
        (PieceType::Bishop, _) => seq![
            MoveRule { move_type: MoveType::LineOfSight, x_offset: 1, y_offset: 1 },
            MoveRule { move_type: MoveType::LineOfSight, x_offset: -1i8, y_offset: 1 },
            MoveRule { move_type: MoveType::LineOfSight, x_offset: 1, y_offset: -1i8 },
            MoveRule { move_type: MoveType::LineOfSight, x_offset: -1i8, y_offset: -1i8 },
        ],
        (PieceType::Queen, _) => seq![
            MoveRule { move_type: MoveType::LineOfSight, x_offset: 1, y_offset: 0 },
            MoveRule { move_type: MoveType::LineOfSight, x_offset: -1i8, y_offset: 0 },
            MoveRule { move_type: MoveType::LineOfSight, x_offset: 0, y_offset: 1 },
            MoveRule { move_type: MoveType::LineOfSight, x_offset: 0, y_offset: -1i8 },
            MoveRule { move_type: MoveType::LineOfSight, x_offset: 1, y_offset: 1 },
            MoveRule { move_type: MoveType::LineOfSight, x_offset: -1i8, y_offset: 1 },
            MoveRule { move_type: MoveType::LineOfSight, x_offset: 1, y_offset: -1i8 },
            MoveRule { move_type: MoveType::LineOfSight, x_offset: -1i8, y_offset: -1i8 },
        ],
        (PieceType::King, _) => seq![
            MoveRule { move_type: MoveType::Normal, x_offset: 1, y_offset: 1 },
            MoveRule { move_type: MoveType::Normal, x_offset: -1i8, y_offset: -1i8 },
            MoveRule { move_type: MoveType::Normal, x_offset: 1, y_offset: -1i8 },
            MoveRule { move_type: MoveType::Normal, x_offset: -1i8, y_offset: 1 },
            MoveRule { move_type: MoveType::Normal, x_offset: 0, y_offset: 1 },
            MoveRule { move_type: MoveType::Normal, x_offset: 0, y_offset: -1i8 },
            MoveRule { move_type: MoveType::Normal, x_offset: 1, y_offset: 0 },
            MoveRule { move_type: MoveType::Normal, x_offset: -1i8, y_offset: 0 },
            MoveRule { move_type: MoveType::Castling, x_offset: -2i8, y_offset: 0 },
            MoveRule { move_type: MoveType::Castling, x_offset: -3i8, y_offset: 0 },
            MoveRule { move_type: MoveType::Castling, x_offset: 2, y_offset: 0 },
        ],
    }
}

/// Castling rules appear only in the king's table and always carry a nonzero
/// file offset, pawn-capture rules appear only in the pawn's tables, and a
/// line-of-sight rule never carries a zero offset in both components.
pub proof fn lemma_piece_rules_shape(t: PieceType, c: Color)
    ensures
        forall|i: int|
            0 <= i < piece_rules(t, c).len() ==> {
                let r = #[trigger] piece_rules(t, c)[i];
                &&& (r.move_type == MoveType::Castling ==> t == PieceType::King && r.x_offset != 0)
                &&& (r.move_type == MoveType::PawnCapture ==> t == PieceType::Pawn)
                &&& (r.move_type == MoveType::LineOfSight ==> !(r.x_offset == 0 && r.y_offset
                    == 0))
            },
{
}

impl Piece {
    pub fn new(piece_type: PieceType, color: Color, initial_square: Square) -> (r: Self)
        ensures
            r == (Piece {
                piece_type,
                color,
                move_count: 0,
                last_move_turn: None,
                initial_square,
            }),
    {
        Self { piece_type, color, move_count: 0, last_move_turn: None, initial_square }
    }

    pub fn piece_type(&self) -> (r: PieceType)
        ensures
            r == self.piece_type,
    {
        self.piece_type
    }

    pub fn piece_type_mut(&mut self) -> (r: &mut PieceType)
        ensures
            *r == old(self).piece_type,
            *final(self) == (Piece { piece_type: *final(r), ..*old(self) }),
    {
        &mut self.piece_type
    }

    pub fn color(&self) -> (r: Color)
        ensures
            r == self.color,
    {
        self.color
    }

    pub fn has_moved(&self) -> (r: bool)
        ensures
            r == (self.move_count > 0),
    {
        self.move_count > 0
    }

    pub fn move_count(&self) -> (r: u32)
        ensures
            r == self.move_count,
    {
        self.move_count
    }

    pub fn increment_move_count(&mut self)
        requires
            old(self).move_count < u32::MAX,
        ensures
            *final(self) == (Piece {
                move_count: (old(self).move_count + 1) as u32,
                ..*old(self)
            }),
    {
        self.move_count += 1;
    }

    pub fn last_move_turn(&self) -> (r: Option<u32>)
        ensures
            r == self.last_move_turn,
    {
        self.last_move_turn
    }

    pub fn initial_square(&self) -> (r: Square)
        ensures
            r == self.initial_square,
    {
        self.initial_square
    }

    /// The table of move rules this piece is entitled to use.
    pub fn move_rules(&self) -> (r: Vec<MoveRule>)
        ensures
            r@ == piece_rules(self.piece_type, self.color),
    {
        let mut v: Vec<MoveRule> = Vec::new();
        match (self.piece_type, self.color) {
            (PieceType::Pawn, Color::Black) => {
                v.push(MoveRule::pawn_single_move(-1));
                v.push(MoveRule::pawn_double_move(-2));
                v.push(MoveRule::pawn_capture(-1, -1));
                v.push(MoveRule::pawn_capture(1, -1));
            },
            (PieceType::Pawn, Color::White) => {
                v.push(MoveRule::pawn_single_move(1));
                v.push(MoveRule::pawn_double_move(2));
                v.push(MoveRule::pawn_capture(-1, 1));
                v.push(MoveRule::pawn_capture(1, 1));
            },
            (PieceType::Rook, _) => {
                v.push(MoveRule::line_of_sight(1, 0));
                v.push(MoveRule::line_of_sight(-1, 0));
                v.push(MoveRule::line_of_sight(0, 1));
                v.push(MoveRule::line_of_sight(0, -1));
            },
            (PieceType::Knight, _) => {
                v.push(MoveRule::normal(1, 2));
                v.push(MoveRule::normal(1, -2));
                v.push(MoveRule::normal(-1, 2));
                v.push(MoveRule::normal(-1, -2));
                v.push(MoveRule::normal(2, -1));
                v.push(MoveRule::normal(2, 1));
                v.push(MoveRule::normal(-2, -1));
                v.push(MoveRule::normal(-2, 1));
            },
            (PieceType::Bishop, _) => {
                v.push(MoveRule::line_of_sight(1, 1));
                v.push(MoveRule::line_of_sight(-1, 1));
                v.push(MoveRule::line_of_sight(1, -1));
                v.push(MoveRule::line_of_sight(-1, -1));
            },
            (PieceType::Queen, _) => {
                v.push(MoveRule::line_of_sight(1, 0));
                v.push(MoveRule::line_of_sight(-1, 0));
                v.push(MoveRule::line_of_sight(0, 1));
                v.push(MoveRule::line_of_sight(0, -1));
                v.push(MoveRule::line_of_sight(1, 1));
                v.push(MoveRule::line_of_sight(-1, 1));
                v.push(MoveRule::line_of_sight(1, -1));
                v.push(MoveRule::line_of_sight(-1, -1));
            },
            (PieceType::King, _) => {
                v.push(MoveRule::normal(1, 1));
                v.push(MoveRule::normal(-1, -1));
                v.push(MoveRule::normal(1, -1));
                v.push(MoveRule::normal(-1, 1));
                v.push(MoveRule::normal(0, 1));
                v.push(MoveRule::normal(0, -1));
                v.push(MoveRule::normal(1, 0));
                v.push(MoveRule::normal(-1, 0));
                v.push(MoveRule::castling(-2));
                v.push(MoveRule::castling(-3));
                v.push(MoveRule::castling(2));
            },
        }
        proof {
            assert(v@ =~= piece_rules(self.piece_type, self.color));
        }
        v
    }
}

} // verus!
