use vstd::prelude::*;

use crate::color::opposite;
use crate::color::Color;
use crate::piece::piece_rules;
use crate::piece::Piece;
use crate::piece::PieceType;
use crate::rule::MoveRule;
use crate::rule::MoveType;
use crate::rule::PieceMove;
use crate::square::Square;

verus! {

broadcast use vstd::array::group_array_axioms;

/// The castling rights still available to one color.
#[derive(Copy, Clone, Debug, PartialEq, Eq, Structural)]
pub struct Castling {
    pub kingside: bool,
    pub queenside: bool,
}

impl Castling {
    pub fn none() -> (r: Self)
        ensures
            r == (Castling { kingside: false, queenside: false }),
    {
        Self { kingside: false, queenside: false }
    }

    pub fn both() -> (r: Self)
        ensures
            r == (Castling { kingside: true, queenside: true }),
    {
        Self { kingside: true, queenside: true }
    }
}

/// The outcome of asking the board to play a move: an ordinary completed
/// move, a completed move whose pawn now awaits promotion, or a rejected
/// request that left the board untouched.
#[derive(Debug, Clone, Copy, PartialEq, Eq, PartialOrd, Ord, Structural)]
pub enum MoveResult {
    Accepted,
    PawnPromote,
    Invalid,
}

/// The 8x8 grid of optional pieces together with the game metadata. Cells are
/// stored in one flat array indexed by `file * 8 + rank`.
#[derive(Copy, Clone, Debug)]
pub struct Board {
    pub cells: [Option<Piece>; 64],
    pub active_color: Color,
    pub white_castling: Castling,
    pub black_castling: Castling,
    pub en_passant_target: Option<Square>,
    pub half_moves: u32,
    pub full_moves: u32,
}

/// Whether `(x, y)` names a cell of the board.
pub open spec fn in_bounds(x: int, y: int) -> bool {
    0 <= x < 8 && 0 <= y < 8
}

/// The flat index of the cell at file `x`, rank `y`.
pub open spec fn cell_index(x: int, y: int) -> int {
    x * 8 + y
}

impl Board {
    /// The content of the cell at file `x`, rank `y`.
    pub open spec fn cell(self, x: int, y: int) -> Option<Piece>
        recommends
            in_bounds(x, y),
    {
        self.cells[cell_index(x, y)]
    }
}

fn index_of(x: u8, y: u8) -> (i: usize)
    requires
        x < 8,
        y < 8,
    ensures
        i == cell_index(x as int, y as int),
{
    (x as usize) * 8 + (y as usize)
}

impl Board {
    /// Initialize a new empty chess board.
    pub fn empty() -> (r: Self)
        ensures
            forall|x: int, y: int| in_bounds(x, y) ==> r.cell(x, y) is None,
            r.active_color == Color::White,
            r.white_castling == (Castling { kingside: true, queenside: true }),
            r.black_castling == (Castling { kingside: true, queenside: true }),
            r.en_passant_target is None,
            r.half_moves == 0,
            r.full_moves == 1,
    {
        let cells: [Option<Piece>; 64] = [None; 64];
        let r = Self {
            cells,
            active_color: Color::White,
            white_castling: Castling::both(),
            black_castling: Castling::both(),
            en_passant_target: None,
            half_moves: 0,
            full_moves: 1,
        };
        proof {
            assert(cells == vstd::array::spec_array_fill_for_copy_type::<Option<Piece>, 64>(None));
            assert forall|x: int, y: int| in_bounds(x, y) implies r.cell(x, y) is None by {
                assert(0 <= cell_index(x, y) < 64);
                assert(vstd::array::spec_array_fill_for_copy_type::<Option<Piece>, 64>(
                    None,
                ).view()[cell_index(x, y)] is None);
            }
        }
        r
    }

    /// Place a fresh piece (never moved, initial square here) on the cell at
    /// file `x`, rank `y`, replacing whatever the cell held.
    pub fn set_piece(&mut self, x: u8, y: u8, piece_type: PieceType, color: Color)
        requires
            x < 8,
            y < 8,
        ensures
            final(self).cells@ == old(self).cells@.update(
                cell_index(x as int, y as int),
                Some(placed_piece(piece_type, color, x as int, y as int)),
            ),
            *final(self) == (Board { cells: final(self).cells, ..*old(self) }),
    {
        let i = index_of(x, y);
        self.cells[i] = Some(Piece::new(piece_type, color, Square { x, y }));
    }

    pub fn piece(&self, x: u8, y: u8) -> (r: &Option<Piece>)
        requires
            x < 8,
            y < 8,
        ensures
            *r == self.cell(x as int, y as int),
    {
        let i = index_of(x, y);
        &self.cells[i]
    }

    pub fn piece_mut(&mut self, x: u8, y: u8) -> (r: &mut Option<Piece>)
        requires
            x < 8,
            y < 8,
        ensures
            *r == old(self).cell(x as int, y as int),
            final(self).cells@ == old(self).cells@.update(
                cell_index(x as int, y as int),
                *final(r),
            ),
            *final(self) == (Board { cells: final(self).cells, ..*old(self) }),
    {
        let i = index_of(x, y);
        &mut self.cells[i]
    }

    pub fn active_color(&self) -> (r: Color)
        ensures
            r == self.active_color,
    {
        self.active_color
    }

    pub fn active_color_mut(&mut self) -> (r: &mut Color)
        ensures
            *r == old(self).active_color,
            *final(self) == (Board { active_color: *final(r), ..*old(self) }),
    {
        &mut self.active_color
    }

    pub fn white_castling(&self) -> (r: Castling)
        ensures
            r == self.white_castling,
    {
        self.white_castling
    }

    pub fn white_castling_mut(&mut self) -> (r: &mut Castling)
        ensures
            *r == old(self).white_castling,
            *final(self) == (Board { white_castling: *final(r), ..*old(self) }),
    {
        &mut self.white_castling
    }

    pub fn black_castling(&self) -> (r: Castling)
        ensures
            r == self.black_castling,
    {
        self.black_castling
    }

    pub fn black_castling_mut(&mut self) -> (r: &mut Castling)
        ensures
            *r == old(self).black_castling,
            *final(self) == (Board { black_castling: *final(r), ..*old(self) }),
    {
        &mut self.black_castling
    }

    pub fn en_passant_target(&self) -> (r: Option<Square>)
        ensures
            r == self.en_passant_target,
    {
        self.en_passant_target
    }

    pub fn en_passant_target_mut(&mut self) -> (r: &mut Option<Square>)
        ensures
            *r == old(self).en_passant_target,
            *final(self) == (Board { en_passant_target: *final(r), ..*old(self) }),
    {
        &mut self.en_passant_target
    }

    pub fn half_moves(&self) -> (r: u32)
        ensures
            r == self.half_moves,
    {
        self.half_moves
    }

    pub fn half_moves_mut(&mut self) -> (r: &mut u32)
        ensures
            *r == old(self).half_moves,
            *final(self) == (Board { half_moves: *final(r), ..*old(self) }),
    {
        &mut self.half_moves
    }

    pub fn full_moves(&self) -> (r: u32)
        ensures
            r == self.full_moves,
    {
        self.full_moves
    }

    pub fn full_moves_mut(&mut self) -> (r: &mut u32)
        ensures
            *r == old(self).full_moves,
            *final(self) == (Board { full_moves: *final(r), ..*old(self) }),
    {
        &mut self.full_moves
    }

    /// A snapshot of every piece currently on the board, in file-major cell
    /// order.
    pub fn pieces(&self) -> (r: Vec<Piece>)
        ensures
            r@ == pieces_upto(*self, 64),
    {
        let mut v: Vec<Piece> = Vec::new();
        let mut i: usize = 0;
        while i < 64
            invariant
                i <= 64,
                v@ == pieces_upto(*self, i as int),
            decreases 64 - i,
        {
            match self.cells[i] {
                Some(p) => v.push(p),
                None => (),
            }
            i = i + 1;
        }
        v
    }

    /// Change the type of the piece on `square` in place (used to finalize a
    /// pawn promotion); a cell with no piece is left untouched.
    pub fn change_piece_type(&mut self, square: Square, new_piece_type: PieceType)
        requires
            square.x < 8,
            square.y < 8,
        ensures
            match old(self).cell(square.x as int, square.y as int) {
                Some(p) => {
                    &&& final(self).cells@ == old(self).cells@.update(
                        cell_index(square.x as int, square.y as int),
                        Some(Piece { piece_type: new_piece_type, ..p }),
                    )
                    &&& *final(self) == (Board { cells: final(self).cells, ..*old(self) })
                },
                None => *final(self) == *old(self),
            },
    {
        let i = index_of(square.x, square.y);
        match self.cells[i] {
            Some(p) => {
                self.cells[i] = Some(Piece { piece_type: new_piece_type, ..p });
            },
            None => (),
        }
    }
}

/// A piece as `set_piece` creates it for the cell at `(x, y)`.
pub open spec fn placed_piece(t: PieceType, c: Color, x: int, y: int) -> Piece {
    Piece {
        piece_type: t,
        color: c,
        move_count: 0,
        last_move_turn: None,
        initial_square: Square { x: x as u8, y: y as u8 },
    }
}

/// The pieces stored in the first `n` cells, in cell order.
pub open spec fn pieces_upto(b: Board, n: int) -> Seq<Piece>
    decreases n,
{
    if n <= 0 {
        Seq::empty()
    } else {
        pieces_upto(b, n - 1) + match b.cells[n - 1] {
            Some(p) => seq![p],
            None => Seq::<Piece>::empty(),
        }
    }
}


/// The square value for the in-range coordinates `(x, y)`.
pub open spec fn sqr(x: int, y: int) -> Square {
    Square { x: x as u8, y: y as u8 }
}

/// An upper bound on how many further steps a ray from `(x, y)` with step
/// `(dx, dy)` can take before it leaves the board.
pub open spec fn ray_metric(x: int, y: int, dx: int, dy: int) -> int {
    (if dx > 0 {
        7 - x
    } else {
        x
    }) + (if dy > 0 {
        7 - y
    } else {
        y
    })
}

/// The squares a sliding piece of color `c` standing on `(x, y)` may move to
/// along the ray with step `(dx, dy)`: every empty square in turn, stopped by
/// the board edge, by a piece of `c` (excluded), or by an enemy piece
/// (included as a capture). A zero step yields nothing.
pub open spec fn ray_moves(b: Board, c: Color, x: int, y: int, dx: int, dy: int) -> Seq<PieceMove>
    decreases ray_metric(x, y, dx, dy),
{
    if !in_bounds(x, y) || (dx == 0 && dy == 0) {
        Seq::empty()
    } else {
        let tx = x + dx;
        let ty = y + dy;
        if !in_bounds(tx, ty) {
            Seq::empty()
        } else {
            match b.cell(tx, ty) {
                Some(q) => if q.color == c {
                    Seq::empty()
                } else {
                    seq![PieceMove { move_type: MoveType::LineOfSight, target: sqr(tx, ty) }]
                },
                None => seq![PieceMove { move_type: MoveType::LineOfSight, target: sqr(tx, ty) }]
                    + ray_moves(b, c, tx, ty, dx, dy),
            }
        }
    }
}

/// Whether a King of color `c` stands on `(x, y)`.
pub open spec fn king_at(b: Board, c: Color, x: int, y: int) -> bool {
    in_bounds(x, y) && match b.cell(x, y) {
        Some(p) => p.piece_type == PieceType::King && p.color == c,
        None => false,
    }
}

/// Whether the board holds one King of color `c` and no other.
pub open spec fn exactly_one_king(b: Board, c: Color) -> bool {
    &&& exists|pos: (int, int)| king_at(b, c, pos.0, pos.1)
    &&& forall|p1: (int, int), p2: (int, int)|
        king_at(b, c, p1.0, p1.1) && king_at(b, c, p2.0, p2.1) ==> p1 == p2
}

/// The coordinates of the King of color `c` (meaningful under
/// `exactly_one_king`).
pub open spec fn king_pos(b: Board, c: Color) -> (int, int) {
    choose|pos: (int, int)| king_at(b, c, pos.0, pos.1)
}

/// The moves one non-castling rule grants a piece `p` standing on
/// `(sx, sy)`.
pub open spec fn simple_rule_moves(b: Board, p: Piece, sx: int, sy: int, r: MoveRule) -> Seq<
    PieceMove,
>
    recommends
        r.move_type != MoveType::Castling,
{
    let tx = sx + r.x_offset as int;
    let ty = sy + r.y_offset as int;
    if !in_bounds(tx, ty) {
        Seq::empty()
    } else {
        let m = PieceMove { move_type: r.move_type, target: sqr(tx, ty) };
        match r.move_type {
            MoveType::Normal => match b.cell(tx, ty) {
                Some(q) => if q.color == p.color {
                    Seq::empty()
                } else {
                    seq![m]
                },
                None => seq![m],
            },
            MoveType::LineOfSight => ray_moves(
                b,
                p.color,
                sx,
                sy,
                r.x_offset as int,
                r.y_offset as int,
            ),
            MoveType::PawnSingleMove => if b.cell(tx, ty) is None {
                seq![m]
            } else {
                Seq::empty()
            },
            MoveType::PawnDoubleMove => if p.move_count == 0 && b.cell(tx, ty) is None {
                seq![m]
            } else {
                Seq::empty()
            },
            MoveType::PawnCapture => {
                let enemy = match b.cell(tx, ty) {
                    Some(q) => q.color != p.color,
                    None => false,
                };
                if enemy || b.en_passant_target == Some(sqr(tx, ty)) {
                    seq![m]
                } else {
                    Seq::empty()
                }
            },
            MoveType::Castling => Seq::empty(),
        }
    }
}

/// Whether some move in `ms` lands on `t`.
pub open spec fn has_target(ms: Seq<PieceMove>, t: Square) -> bool {
    exists|i: int| 0 <= i < ms.len() && ms[i].target == t
}

/// Whether piece `p` standing on `(x, y)` attacks square `t`: one of its
/// non-castling rules generates a move onto `t`. Castling rules are left out:
/// a castling move only ever lands on an empty square, so it can never
/// attack an occupied one, and leaving it out keeps attack queries
/// well-founded (a castling test itself asks whether the king is attacked).
pub open spec fn piece_attacks(b: Board, p: Piece, x: int, y: int, t: Square) -> bool {
    exists|i: int|
        0 <= i < piece_rules(p.piece_type, p.color).len() && (#[trigger] piece_rules(
            p.piece_type,
            p.color,
        )[i]).move_type != MoveType::Castling && has_target(
            simple_rule_moves(b, p, x, y, piece_rules(p.piece_type, p.color)[i]),
            t,
        )
}

/// Whether the piece on `(x, y)`, if any, is an enemy of `c` that attacks
/// square `t`.
pub open spec fn cell_attacks(b: Board, c: Color, x: int, y: int, t: Square) -> bool {
    match b.cell(x, y) {
        Some(p) => p.color != c && piece_attacks(b, p, x, y, t),
        None => false,
    }
}

/// Whether the King of color `c` is currently attacked by some enemy piece.
pub open spec fn attacked(b: Board, c: Color) -> bool
    recommends
        exactly_one_king(b, c),
{
    let k = king_pos(b, c);
    exists|x: int, y: int| in_bounds(x, y) && #[trigger] cell_attacks(b, c, x, y, sqr(k.0, k.1))
}

/// The absolute difference of two coordinates.
pub open spec fn abs_diff(a: int, b: int) -> int {
    if a >= b {
        a - b
    } else {
        b - a
    }
}

/// Whether a castling rule applies to piece `p` standing on `(sx, sy)`: the
/// king has never moved, its two-squares-over target is empty, the rook in
/// the corner the offset points to has never moved, the ray toward that
/// corner spans exactly the cells between king and rook, and the king's own
/// square is not under attack.
pub open spec fn castling_ok(b: Board, p: Piece, sx: int, sy: int, r: MoveRule) -> bool {
    let tx = sx + r.x_offset as int;
    let ty = sy + r.y_offset as int;
    &&& in_bounds(tx, ty)
    &&& p.move_count == 0
    &&& b.cell(tx, ty) is None
    &&& ({
        let rook_x: int = if r.x_offset < 0 {
            0
        } else {
            7
        };
        let dir: int = if r.x_offset < 0 {
            -1
        } else {
            1
        };
        &&& match b.cell(rook_x, ty) {
            Some(rk) => rk.piece_type == PieceType::Rook && rk.move_count == 0,
            None => false,
        }
        &&& ray_moves(b, p.color, sx, sy, dir, 0).len() == abs_diff(sx, rook_x) - 1
        &&& !attacked(b, p.color)
    })
}

/// The moves one rule grants a piece `p` standing on `(sx, sy)`, castling
/// included.
pub open spec fn rule_moves(b: Board, p: Piece, sx: int, sy: int, r: MoveRule) -> Seq<PieceMove> {
    if r.move_type == MoveType::Castling {
        if castling_ok(b, p, sx, sy, r) {
            seq![
                PieceMove {
                    move_type: MoveType::Castling,
                    target: sqr(sx + r.x_offset as int, sy + r.y_offset as int),
                },
            ]
        } else {
            Seq::empty()
        }
    } else {
        simple_rule_moves(b, p, sx, sy, r)
    }
}

/// The board after the bare relocation used for check-safety simulation:
/// `p` is written onto `t`, then the source cell is cleared; nothing else
/// changes.
pub open spec fn relocated(b: Board, p: Piece, sx: int, sy: int, t: Square) -> Board {
    Board {
        cells: vstd::array::spec_array_update(
            vstd::array::spec_array_update(b.cells, cell_index(t.x as int, t.y as int), Some(p)),
            cell_index(sx, sy),
            None,
        ),
        ..b
    }
}

/// Whether relocating `p` from `(sx, sy)` onto the move's target leaves the
/// mover's own king unattacked.
pub open spec fn move_is_safe(b: Board, p: Piece, sx: int, sy: int, m: PieceMove) -> bool {
    !attacked(relocated(b, p, sx, sy, m.target), p.color)
}

/// The king-safety predicate for moves of `p` from `(sx, sy)`, as a value
/// usable with `Seq::filter`.
pub open spec fn safe_pred(b: Board, p: Piece, sx: int, sy: int) -> spec_fn(PieceMove) -> bool {
    |m: PieceMove| move_is_safe(b, p, sx, sy, m)
}

/// The moves one rule grants, after the king-safety filter when it is
/// requested.
pub open spec fn rule_moves_filtered(
    b: Board,
    p: Piece,
    sx: int,
    sy: int,
    r: MoveRule,
    check: bool,
) -> Seq<PieceMove> {
    if check {
        rule_moves(b, p, sx, sy, r).filter(safe_pred(b, p, sx, sy))
    } else {
        rule_moves(b, p, sx, sy, r)
    }
}

/// The moves granted by a table of rules, in table order.
pub open spec fn moves_for_rules(
    b: Board,
    p: Piece,
    sx: int,
    sy: int,
    rules: Seq<MoveRule>,
    check: bool,
) -> Seq<PieceMove>
    decreases rules.len(),
{
    if rules.len() == 0 {
        Seq::empty()
    } else {
        moves_for_rules(b, p, sx, sy, rules.drop_last(), check) + rule_moves_filtered(
            b,
            p,
            sx,
            sy,
            rules.last(),
            check,
        )
    }
}

/// Every move the board grants piece `p` standing on `s`, with or without
/// the king-safety filter.
pub open spec fn legal_moves(b: Board, p: Piece, s: Square, check: bool) -> Seq<PieceMove> {
    moves_for_rules(b, p, s.x as int, s.y as int, piece_rules(p.piece_type, p.color), check)
}

/// The first move in `ms` that lands on `to`, if any.
pub open spec fn find_target(ms: Seq<PieceMove>, to: Square) -> Option<PieceMove>
    decreases ms.len(),
{
    if ms.len() == 0 {
        None
    } else if ms[0].target == to {
        Some(ms[0])
    } else {
        find_target(ms.drop_first(), to)
    }
}

/// Whether the current en-passant target square holds a King of color `c`
/// (a degenerate hand-built position that check-safety simulation cannot
/// accept, since a pawn capture onto it would erase that king).
pub open spec fn ep_square_holds_king(b: Board, c: Color) -> bool {
    match b.en_passant_target {
        Some(e) => king_at(b, c, e.x as int, e.y as int),
        None => false,
    }
}



/// Pieces of the given type and color standing at `(x, y)`.
pub open spec fn piece_of_kind_at(b: Board, t: PieceType, c: Color, x: int, y: int) -> bool {
    in_bounds(x, y) && match b.cell(x, y) {
        Some(p) => p.piece_type == t && p.color == c,
        None => false,
    }
}

impl Board {
    /// Walk the ray from `(x, y)` with step `(dx, dy)` and collect the
    /// line-of-sight moves along it for a piece of color `color`.
    fn ray(&self, color: Color, x: u8, y: u8, dx: i8, dy: i8) -> (r: Vec<PieceMove>)
        requires
            x < 8,
            y < 8,
        ensures
            r@ == ray_moves(*self, color, x as int, y as int, dx as int, dy as int),
    {
        let mut acc: Vec<PieceMove> = Vec::new();
        if dx == 0 && dy == 0 {
            return acc;
        }
        let mut cx = x;
        let mut cy = y;
        loop
            invariant
                cx < 8,
                cy < 8,
                !(dx == 0 && dy == 0),
                ray_moves(*self, color, x as int, y as int, dx as int, dy as int) == acc@
                    + ray_moves(*self, color, cx as int, cy as int, dx as int, dy as int),
            decreases ray_metric(cx as int, cy as int, dx as int, dy as int),
        {
            let ghost cur = ray_moves(*self, color, cx as int, cy as int, dx as int, dy as int);
            let tx = cx as i16 + dx as i16;
            let ty = cy as i16 + dy as i16;
            if tx < 0 || tx > 7 || ty < 0 || ty > 7 {
                proof {
                    assert(acc@ + cur =~= acc@);
                }
                return acc;
            }
            let txu = tx as u8;
            let tyu = ty as u8;
            let m = PieceMove { move_type: MoveType::LineOfSight, target: Square { x: txu, y: tyu } };
            let ghost acc0 = acc@;
            match *self.piece(txu, tyu) {
                Some(q) => {
                    if q.color == color {
                        proof {
                            assert(acc@ + cur =~= acc@);
                        }
                        return acc;
                    } else {
                        acc.push(m);
                        proof {
                            assert(cur =~= seq![m]);
                            assert(acc0 + cur =~= acc@);
                        }
                        return acc;
                    }
                },
                None => {
                    acc.push(m);
                    cx = txu;
                    cy = tyu;
                    proof {
                        assert(cur =~= seq![m] + ray_moves(
                            *self,
                            color,
                            cx as int,
                            cy as int,
                            dx as int,
                            dy as int,
                        ));
                        assert(acc0 + cur =~= acc@ + ray_moves(
                            *self,
                            color,
                            cx as int,
                            cy as int,
                            dx as int,
                            dy as int,
                        ));
                    }
                },
            }
        }
    }

    /// The moves one non-castling rule grants `piece` standing on `square`.
    fn basic_rule_moves(&self, piece: &Piece, square: &Square, move_rule: &MoveRule) -> (r: Vec<
        PieceMove,
    >)
        requires
            square.x < 8,
            square.y < 8,
            move_rule.move_type != MoveType::Castling,
        ensures
            r@ == simple_rule_moves(*self, *piece, square.x as int, square.y as int, *move_rule),
    {
        let mut v: Vec<PieceMove> = Vec::new();
        let tx = square.x as i16 + move_rule.x_offset as i16;
        let ty = square.y as i16 + move_rule.y_offset as i16;
        if tx < 0 || tx > 7 || ty < 0 || ty > 7 {
            return v;
        }
        let txu = tx as u8;
        let tyu = ty as u8;
        let target = *self.piece(txu, tyu);
        let m = PieceMove { move_type: move_rule.move_type, target: Square { x: txu, y: tyu } };
        match move_rule.move_type {
            MoveType::Normal => {
                let same = match target {
                    Some(q) => q.color == piece.color,
                    None => false,
                };
                if !same {
                    v.push(m);
                }
            },
            MoveType::LineOfSight => {
                return self.ray(
                    piece.color,
                    square.x,
                    square.y,
                    move_rule.x_offset,
                    move_rule.y_offset,
                );
            },
            MoveType::PawnSingleMove => {
                if target.is_none() {
                    v.push(m);
                }
            },
            MoveType::PawnDoubleMove => {
                if piece.move_count == 0 && target.is_none() {
                    v.push(m);
                }
            },
            MoveType::PawnCapture => {
                let enemy = match target {
                    Some(q) => q.color != piece.color,
                    None => false,
                };
                let ep = match self.en_passant_target {
                    Some(e) => e == Square { x: txu, y: tyu },
                    None => false,
                };
                if enemy || ep {
                    v.push(m);
                }
            },
            MoveType::Castling => {},
        }
        proof {
            assert(v@ =~= simple_rule_moves(
                *self,
                *piece,
                square.x as int,
                square.y as int,
                *move_rule,
            ));
        }
        v
    }

    /// Scan the board in file-major order for a piece of the given type and
    /// color.
    fn find_piece(&self, piece_type: PieceType, piece_color: Color) -> (r: Option<(Piece, Square)>)
        ensures
            match r {
                Some(pair) => {
                    &&& pair.1.x < 8
                    &&& pair.1.y < 8
                    &&& self.cell(pair.1.x as int, pair.1.y as int) == Some(pair.0)
                    &&& pair.0.piece_type == piece_type
                    &&& pair.0.color == piece_color
                },
                None => forall|x: int, y: int|
                    in_bounds(x, y) ==> !piece_of_kind_at(*self, piece_type, piece_color, x, y),
            },
    {
        let mut x: u8 = 0;
        while x < 8
            invariant
                x <= 8,
                forall|a: int, b: int|
                    0 <= a < x && 0 <= b < 8 ==> !piece_of_kind_at(*self, piece_type, piece_color, a, b),
            decreases 8 - x,
        {
            let mut y: u8 = 0;
            while y < 8
                invariant
                    x < 8,
                    y <= 8,
                    forall|b: int|
                        0 <= b < y ==> !piece_of_kind_at(*self, piece_type, piece_color, x as int, b),
                decreases 8 - y,
            {
                match *self.piece(x, y) {
                    Some(p) => {
                        if p.piece_type == piece_type && p.color == piece_color {
                            return Some((p, Square { x, y }));
                        }
                    },
                    None => {},
                }
                y = y + 1;
            }
            x = x + 1;
        }
        None
    }

    /// Whether the King of color `color` is attacked by any enemy piece.
    /// Castling rules are skipped in the scan: a castling move only lands on
    /// an empty square and so can never reach the occupied king square, and
    /// skipping them keeps the scan from asking about the enemy king's own
    /// castling rights in turn.
    fn is_king_threatened(&self, color: Color) -> (r: bool)
        requires
            exactly_one_king(*self, color),
        ensures
            r == attacked(*self, color),
    {
        let found = self.find_piece(PieceType::King, color);
        let king_square: Square = match found {
            Some(pair) => pair.1,
            None => {
                proof {
                    let pos = choose|pos: (int, int)| king_at(*self, color, pos.0, pos.1);
                    assert(!piece_of_kind_at(*self, PieceType::King, color, pos.0, pos.1));
                    assert(false);
                }
                vstd::pervasive::unreached()
            },
        };
        proof {
            let kt = (king_square.x as int, king_square.y as int);
            assert(king_at(*self, color, kt.0, kt.1));
            let pos = king_pos(*self, color);
            assert(king_at(*self, color, pos.0, pos.1));
            assert(pos == kt);
            assert(sqr(pos.0, pos.1) == king_square);
        }
        let mut x: u8 = 0;
        while x < 8
            invariant
                x <= 8,
                exactly_one_king(*self, color),
                sqr(king_pos(*self, color).0, king_pos(*self, color).1) == king_square,
                forall|a: int, b: int|
                    0 <= a < x && 0 <= b < 8 ==> !cell_attacks(*self, color, a, b, king_square),
            decreases 8 - x,
        {
            let mut y: u8 = 0;
            while y < 8
                invariant
                    x < 8,
                    y <= 8,
                    exactly_one_king(*self, color),
                    sqr(king_pos(*self, color).0, king_pos(*self, color).1) == king_square,
                    forall|a: int, b: int|
                        0 <= a < x && 0 <= b < 8 ==> !cell_attacks(*self, color, a, b, king_square),
                    forall|b: int|
                        0 <= b < y ==> !cell_attacks(*self, color, x as int, b, king_square),
                decreases 8 - y,
            {
                match *self.piece(x, y) {
                    Some(p) => {
                        if p.color != color {
                            let rules = p.move_rules();
                            let mut j: usize = 0;
                            while j < rules.len()
                                invariant
                                    x < 8,
                                    y < 8,
                                    j <= rules.len(),
                                    self.cell(x as int, y as int) == Some(p),
                                    p.color != color,
                                    rules@ == piece_rules(p.piece_type, p.color),
                                    exactly_one_king(*self, color),
                                    sqr(king_pos(*self, color).0, king_pos(*self, color).1)
                                        == king_square,
                                    forall|i: int|
                                        0 <= i < j ==> ((#[trigger] rules@[i]).move_type
                                            == MoveType::Castling || !has_target(
                                            simple_rule_moves(*self, p, x as int, y as int, rules@[i]),
                                            king_square,
                                        )),
                                decreases rules.len() - j,
                            {
                                let rule = rules[j];
                                if !(rule.move_type == MoveType::Castling) {
                                    let ms = self.basic_rule_moves(&p, &Square { x, y }, &rule);
                                    let mut k: usize = 0;
                                    while k < ms.len()
                                        invariant
                                            k <= ms.len(),
                                            x < 8,
                                            y < 8,
                                            self.cell(x as int, y as int) == Some(p),
                                            p.color != color,
                                            exactly_one_king(*self, color),
                                            sqr(king_pos(*self, color).0, king_pos(*self, color).1)
                                                == king_square,
                                            ms@ == simple_rule_moves(
                                                *self,
                                                p,
                                                x as int,
                                                y as int,
                                                rule,
                                            ),
                                            0 <= j < piece_rules(p.piece_type, p.color).len(),
                                            rule == piece_rules(p.piece_type, p.color)[j as int],
                                            rule.move_type != MoveType::Castling,
                                            forall|i: int| 0 <= i < k ==> (#[trigger] ms@[i]).target
                                                != king_square,
                                        decreases ms.len() - k,
                                    {
                                        if ms[k].target == king_square {
                                            proof {
                                                assert(has_target(ms@, king_square));
                                                assert(piece_rules(p.piece_type, p.color)[j as int]
                                                    == rule);
                                                assert(has_target(
                                                    simple_rule_moves(
                                                        *self,
                                                        p,
                                                        x as int,
                                                        y as int,
                                                        piece_rules(p.piece_type, p.color)[j as int],
                                                    ),
                                                    king_square,
                                                ));
                                                assert(piece_attacks(
                                                    *self,
                                                    p,
                                                    x as int,
                                                    y as int,
                                                    king_square,
                                                ));
                                                assert(cell_attacks(
                                                    *self,
                                                    color,
                                                    x as int,
                                                    y as int,
                                                    king_square,
                                                ));
                                            }
                                            return true;
                                        }
                                        k = k + 1;
                                    }
                                }
                                j = j + 1;
                            }
                            proof {
                                assert(!piece_attacks(*self, p, x as int, y as int, king_square));
                            }
                        }
                    },
                    None => {},
                }
                y = y + 1;
            }
            x = x + 1;
        }
        proof {
            assert(!attacked(*self, color));
        }
        false
    }
}



/// Two in-range coordinate pairs with the same flat index are the same pair.
pub proof fn lemma_index_inj(x1: int, y1: int, x2: int, y2: int)
    requires
        in_bounds(x1, y1),
        in_bounds(x2, y2),
        cell_index(x1, y1) == cell_index(x2, y2),
    ensures
        x1 == x2 && y1 == y2,
{
}

/// What each cell holds after the bare relocation used for check-safety
/// simulation.
proof fn lemma_relocated_cells(b: Board, p: Piece, sx: int, sy: int, t: Square)
    requires
        in_bounds(sx, sy),
        in_bounds(t.x as int, t.y as int),
    ensures
        forall|x: int, y: int|
            in_bounds(x, y) ==> #[trigger] relocated(b, p, sx, sy, t).cell(x, y) == (if x == sx
                && y == sy {
                None
            } else if x == t.x as int && y == t.y as int {
                Some(p)
            } else {
                b.cell(x, y)
            }),
{
    let b2 = relocated(b, p, sx, sy, t);
    assert forall|x: int, y: int| in_bounds(x, y) implies #[trigger] b2.cell(x, y) == (if x == sx
        && y == sy {
        None
    } else if x == t.x as int && y == t.y as int {
        Some(p)
    } else {
        b.cell(x, y)
    }) by {
        if cell_index(x, y) == cell_index(sx, sy) {
            lemma_index_inj(x, y, sx, sy);
        }
        if cell_index(x, y) == cell_index(t.x as int, t.y as int) {
            lemma_index_inj(x, y, t.x as int, t.y as int);
        }
    }
}

/// Every move along a ray lands in bounds, is a line-of-sight move, and
/// never lands on a King of the moving color (the ray stops short of any
/// same-colored piece).
proof fn lemma_ray_targets(b: Board, c: Color, x: int, y: int, dx: int, dy: int)
    ensures
        forall|i: int|
            0 <= i < ray_moves(b, c, x, y, dx, dy).len() ==> {
                let m = #[trigger] ray_moves(b, c, x, y, dx, dy)[i];
                &&& m.move_type == MoveType::LineOfSight
                &&& in_bounds(m.target.x as int, m.target.y as int)
                &&& !king_at(b, c, m.target.x as int, m.target.y as int)
            },
    decreases ray_metric(x, y, dx, dy),
{
    if !in_bounds(x, y) || (dx == 0 && dy == 0) {
    } else {
        let tx = x + dx;
        let ty = y + dy;
        if in_bounds(tx, ty) && b.cell(tx, ty) is None {
            lemma_ray_targets(b, c, tx, ty, dx, dy);
            let head = seq![
                PieceMove { move_type: MoveType::LineOfSight, target: sqr(tx, ty) },
            ];
            let rest = ray_moves(b, c, tx, ty, dx, dy);
            assert(ray_moves(b, c, x, y, dx, dy) == head + rest);
            assert forall|i: int| 0 <= i < (head + rest).len() implies {
                let m = #[trigger] (head + rest)[i];
                &&& m.move_type == MoveType::LineOfSight
                &&& in_bounds(m.target.x as int, m.target.y as int)
                &&& !king_at(b, c, m.target.x as int, m.target.y as int)
            } by {
                if i >= 1 {
                    assert((head + rest)[i] == rest[i - 1]);
                }
            }
        }
    }
}

/// What holds of every move a rule generates for `p` standing on
/// `(sx, sy)`: the target is in bounds, it never holds a King of the moving
/// color, and a castling move finds its empty target and its unmoved corner
/// rook where move application will look for them.
pub open spec fn generated_move_ok(b: Board, p: Piece, sx: int, sy: int, m: PieceMove) -> bool {
    &&& in_bounds(m.target.x as int, m.target.y as int)
    &&& !king_at(b, p.color, m.target.x as int, m.target.y as int)
    &&& (m.move_type == MoveType::Castling ==> {
        let rook_x: int = if m.target.x as int > sx {
            7
        } else {
            0
        };
        &&& m.target.x as int != sx
        &&& b.cell(m.target.x as int, m.target.y as int) is None
        &&& (match b.cell(rook_x, m.target.y as int) {
            Some(rk) => rk.piece_type == PieceType::Rook && rk.move_count == 0,
            None => false,
        })
    })
}

/// Every move a rule generates lands in bounds and never lands on a King of
/// the moving color; for pawn-capture rules this relies on the en-passant
/// target square not holding such a King.
proof fn lemma_rule_moves_targets(b: Board, p: Piece, sx: int, sy: int, r: MoveRule)
    requires
        r.move_type == MoveType::PawnCapture ==> !ep_square_holds_king(b, p.color),
        r.move_type == MoveType::Castling ==> r.x_offset != 0,
    ensures
        forall|i: int|
            0 <= i < rule_moves(b, p, sx, sy, r).len() ==> generated_move_ok(
                b,
                p,
                sx,
                sy,
                #[trigger] rule_moves(b, p, sx, sy, r)[i],
            ),
{
    if r.move_type == MoveType::LineOfSight {
        lemma_ray_targets(b, p.color, sx, sy, r.x_offset as int, r.y_offset as int);
    }
}

/// Relocating a piece for check-safety simulation keeps exactly one King of
/// the mover's color on the board, provided the move does not land on that
/// King's own square.
proof fn lemma_relocated_king(b: Board, p: Piece, sx: int, sy: int, t: Square)
    requires
        exactly_one_king(b, p.color),
        in_bounds(sx, sy),
        b.cell(sx, sy) == Some(p),
        in_bounds(t.x as int, t.y as int),
        !king_at(b, p.color, t.x as int, t.y as int),
    ensures
        exactly_one_king(relocated(b, p, sx, sy, t), p.color),
{
    lemma_relocated_cells(b, p, sx, sy, t);
    let c = p.color;
    let b2 = relocated(b, p, sx, sy, t);
    let pos = king_pos(b, c);
    assert(king_at(b, c, pos.0, pos.1));
    let tt = (t.x as int, t.y as int);
    if p.piece_type == PieceType::King {
        let st = (sx, sy);
        assert(king_at(b, c, st.0, st.1));
        assert(pos == st);
        assert(king_at(b2, c, tt.0, tt.1));
        assert forall|p1: (int, int), p2: (int, int)|
            king_at(b2, c, p1.0, p1.1) && king_at(b2, c, p2.0, p2.1) implies p1 == p2 by {
            assert(p1 == tt && p2 == tt) by {
                if p1 != tt {
                    assert(king_at(b, c, p1.0, p1.1));
                    assert(p1 == pos);
                    assert(false);
                }
                if p2 != tt {
                    assert(king_at(b, c, p2.0, p2.1));
                    assert(p2 == pos);
                    assert(false);
                }
            }
        }
    } else {
        assert(pos != (sx, sy));
        assert(pos != tt);
        assert(king_at(b2, c, pos.0, pos.1));
        assert forall|p1: (int, int), p2: (int, int)|
            king_at(b2, c, p1.0, p1.1) && king_at(b2, c, p2.0, p2.1) implies p1 == p2 by {
            assert(p1 == pos && p2 == pos) by {
                if p1 != pos {
                    if p1 == tt || p1 == (sx, sy) {
                        assert(false);
                    } else {
                        assert(king_at(b, c, p1.0, p1.1));
                        assert(false);
                    }
                }
                if p2 != pos {
                    if p2 == tt || p2 == (sx, sy) {
                        assert(false);
                    } else {
                        assert(king_at(b, c, p2.0, p2.1));
                        assert(false);
                    }
                }
            }
        }
    }
}

impl Board {
    /// The moves one rule grants `piece` standing on `square`, optionally
    /// filtered so that no returned move leaves the mover's own king
    /// attacked.
    fn valid_moves_for_rule(
        &self,
        piece: &Piece,
        square: &Square,
        move_rule: &MoveRule,
        check_king_safety: bool,
    ) -> (r: Vec<PieceMove>)
        requires
            square.x < 8,
            square.y < 8,
            move_rule.move_type == MoveType::Castling ==> exactly_one_king(*self, piece.color)
                && move_rule.x_offset != 0,
            check_king_safety ==> {
                &&& self.cell(square.x as int, square.y as int) == Some(*piece)
                &&& exactly_one_king(*self, piece.color)
                &&& (move_rule.move_type == MoveType::PawnCapture ==> !ep_square_holds_king(
                    *self,
                    piece.color,
                ))
            },
        ensures
            r@ == rule_moves_filtered(
                *self,
                *piece,
                square.x as int,
                square.y as int,
                *move_rule,
                check_king_safety,
            ),
    {
        let ghost sx = square.x as int;
        let ghost sy = square.y as int;
        let mut candidates: Vec<PieceMove>;
        if move_rule.move_type == MoveType::Castling {
            candidates = Vec::new();
            let tx = square.x as i16 + move_rule.x_offset as i16;
            let ty = square.y as i16 + move_rule.y_offset as i16;
            if 0 <= tx && tx < 8 && 0 <= ty && ty < 8 {
                let txu = tx as u8;
                let tyu = ty as u8;
                let target = *self.piece(txu, tyu);
                if piece.move_count == 0 && target.is_none() {
                    let (rook_x, dir_x): (u8, i8) = if move_rule.x_offset < 0 {
                        (0, -1)
                    } else {
                        (7, 1)
                    };
                    let rook_ok = match *self.piece(rook_x, tyu) {
                        Some(rk) => rk.piece_type == PieceType::Rook && rk.move_count == 0,
                        None => false,
                    };
                    if rook_ok {
                        let ray_v = self.ray(piece.color, square.x, square.y, dir_x, 0);
                        let dist = if square.x >= rook_x {
                            square.x - rook_x
                        } else {
                            rook_x - square.x
                        };
                        assert(dist >= 1);
                        if ray_v.len() == (dist - 1) as usize && !self.is_king_threatened(
                            piece.color,
                        ) {
                            candidates.push(
                                PieceMove {
                                    move_type: MoveType::Castling,
                                    target: Square { x: txu, y: tyu },
                                },
                            );
                        }
                    }
                }
            }
            proof {
                assert(candidates@ =~= rule_moves(*self, *piece, sx, sy, *move_rule));
            }
        } else {
            candidates = self.basic_rule_moves(piece, square, move_rule);
        }
        if check_king_safety {
            proof {
                lemma_rule_moves_targets(*self, *piece, sx, sy, *move_rule);
                assert forall|i: int| 0 <= i < candidates@.len() implies generated_move_ok(
                    *self,
                    *piece,
                    sx,
                    sy,
                    #[trigger] candidates@[i],
                ) by {
                    assert(candidates@[i] == rule_moves(*self, *piece, sx, sy, *move_rule)[i]);
                }
            }
            let ghost pred = safe_pred(*self, *piece, sx, sy);
            let mut out: Vec<PieceMove> = Vec::new();
            let mut k: usize = 0;
            while k < candidates.len()
                invariant
                    k <= candidates.len(),
                    square.x < 8,
                    square.y < 8,
                    sx == square.x as int,
                    sy == square.y as int,
                    self.cell(sx, sy) == Some(*piece),
                    exactly_one_king(*self, piece.color),
                    pred == safe_pred(*self, *piece, sx, sy),
                    candidates@ == rule_moves(*self, *piece, sx, sy, *move_rule),
                    forall|i: int|
                        0 <= i < candidates@.len() ==> generated_move_ok(
                            *self,
                            *piece,
                            sx,
                            sy,
                            #[trigger] candidates@[i],
                        ),
                    out@ == candidates@.take(k as int).filter(pred),
                decreases candidates.len() - k,
            {
                let m = candidates[k];
                let mut board_copy = *self;
                let ti = index_of(m.target.x, m.target.y);
                board_copy.cells[ti] = Some(*piece);
                let si = index_of(square.x, square.y);
                board_copy.cells[si] = None;
                proof {
                    assert(board_copy.cells =~= relocated(
                        *self,
                        *piece,
                        sx,
                        sy,
                        m.target,
                    ).cells);
                    assert(board_copy == relocated(*self, *piece, sx, sy, m.target));
                    lemma_relocated_king(*self, *piece, sx, sy, m.target);
                }
                let threatened = board_copy.is_king_threatened(piece.color);
                let ghost out0 = out@;
                if !threatened {
                    out.push(m);
                }
                proof {
                    assert(pred(m) == !threatened);
                    assert(candidates@.take((k + 1) as int).drop_last() =~= candidates@.take(
                        k as int,
                    ));
                    assert(candidates@.take((k + 1) as int).last() == m);
                    reveal_with_fuel(Seq::filter, 2);
                    assert(candidates@.take((k + 1) as int).filter(pred) == (if pred(m) {
                        candidates@.take(k as int).filter(pred).push(m)
                    } else {
                        candidates@.take(k as int).filter(pred)
                    }));
                    assert(out@ == candidates@.take((k + 1) as int).filter(pred));
                }
                k = k + 1;
            }
            proof {
                assert(candidates@.take(candidates@.len() as int) =~= candidates@);
            }
            out
        } else {
            candidates
        }
    }

    /// Every move the board grants `piece` standing on `square`, in rule
    /// order; with `check_king_safety` each candidate is re-validated on a
    /// copy of the board and kept only if the mover's own king is not left
    /// attacked.
    pub fn valid_moves(&self, piece: &Piece, square: &Square, check_king_safety: bool) -> (r: Vec<
        PieceMove,
    >)
        requires
            square.x < 8,
            square.y < 8,
            piece.piece_type == PieceType::King ==> exactly_one_king(*self, piece.color),
            check_king_safety ==> {
                &&& self.cell(square.x as int, square.y as int) == Some(*piece)
                &&& exactly_one_king(*self, piece.color)
                &&& (piece.piece_type == PieceType::Pawn ==> !ep_square_holds_king(
                    *self,
                    piece.color,
                ))
            },
        ensures
            r@ == legal_moves(*self, *piece, *square, check_king_safety),
    {
        let ghost sx = square.x as int;
        let ghost sy = square.y as int;
        let mut valid: Vec<PieceMove> = Vec::new();
        let rules = piece.move_rules();
        let mut i: usize = 0;
        while i < rules.len()
            invariant
                i <= rules.len(),
                square.x < 8,
                square.y < 8,
                sx == square.x as int,
                sy == square.y as int,
                rules@ == piece_rules(piece.piece_type, piece.color),
                piece.piece_type == PieceType::King ==> exactly_one_king(*self, piece.color),
                check_king_safety ==> {
                    &&& self.cell(sx, sy) == Some(*piece)
                    &&& exactly_one_king(*self, piece.color)
                    &&& (piece.piece_type == PieceType::Pawn ==> !ep_square_holds_king(
                        *self,
                        piece.color,
                    ))
                },
                valid@ == moves_for_rules(
                    *self,
                    *piece,
                    sx,
                    sy,
                    rules@.take(i as int),
                    check_king_safety,
                ),
            decreases rules.len() - i,
        {
            let rule = rules[i];
            proof {
                crate::piece::lemma_piece_rules_shape(piece.piece_type, piece.color);
                assert(piece_rules(piece.piece_type, piece.color)[i as int] == rule);
            }
            let mut part = self.valid_moves_for_rule(piece, square, &rule, check_king_safety);
            valid.append(&mut part);
            proof {
                assert(rules@.take((i + 1) as int).drop_last() =~= rules@.take(i as int));
                assert(rules@.take((i + 1) as int).last() == rule);
                assert(valid@ == moves_for_rules(
                    *self,
                    *piece,
                    sx,
                    sy,
                    rules@.take((i + 1) as int),
                    check_king_safety,
                ));
            }
            i = i + 1;
        }
        proof {
            assert(rules@.take(rules@.len() as int) =~= rules@);
        }
        valid
    }
}



/// A fact true of every element of a sequence is true of every element of
/// its filtering.
proof fn lemma_filter_elems(
    s: Seq<PieceMove>,
    pred: spec_fn(PieceMove) -> bool,
    fact: spec_fn(PieceMove) -> bool,
)
    requires
        forall|i: int| 0 <= i < s.len() ==> fact(#[trigger] s[i]),
    ensures
        forall|i: int| 0 <= i < s.filter(pred).len() ==> fact(#[trigger] s.filter(pred)[i]),
    decreases s.len(),
{
    reveal_with_fuel(Seq::filter, 2);
    if s.len() == 0 {
    } else {
        assert(forall|i: int| 0 <= i < s.drop_last().len() ==> fact(#[trigger] s.drop_last()[i]));
        lemma_filter_elems(s.drop_last(), pred, fact);
        assert(fact(s.last()));
        assert forall|i: int| 0 <= i < s.filter(pred).len() implies fact(
            #[trigger] s.filter(pred)[i],
        ) by {
            if i < s.drop_last().filter(pred).len() {
                assert(s.filter(pred)[i] == s.drop_last().filter(pred)[i]);
            } else {
                assert(s.filter(pred)[i] == s.last());
            }
        }
    }
}

/// Every move granted by a table of rules satisfies `generated_move_ok`.
proof fn lemma_moves_targets_rules(
    b: Board,
    p: Piece,
    sx: int,
    sy: int,
    rules: Seq<MoveRule>,
    check: bool,
)
    requires
        forall|i: int|
            0 <= i < rules.len() ==> {
                let r = #[trigger] rules[i];
                &&& (r.move_type == MoveType::PawnCapture ==> !ep_square_holds_king(b, p.color))
                &&& (r.move_type == MoveType::Castling ==> r.x_offset != 0)
            },
    ensures
        forall|i: int|
            0 <= i < moves_for_rules(b, p, sx, sy, rules, check).len() ==> generated_move_ok(
                b,
                p,
                sx,
                sy,
                #[trigger] moves_for_rules(b, p, sx, sy, rules, check)[i],
            ),
    decreases rules.len(),
{
    if rules.len() == 0 {
    } else {
        lemma_moves_targets_rules(b, p, sx, sy, rules.drop_last(), check);
        lemma_rule_moves_targets(b, p, sx, sy, rules.last());
        let last_all = rule_moves(b, p, sx, sy, rules.last());
        let last_part = rule_moves_filtered(b, p, sx, sy, rules.last(), check);
        if check {
            lemma_filter_elems(
                last_all,
                safe_pred(b, p, sx, sy),
                |m: PieceMove| generated_move_ok(b, p, sx, sy, m),
            );
        }
        let head = moves_for_rules(b, p, sx, sy, rules.drop_last(), check);
        assert forall|i: int|
            0 <= i < moves_for_rules(b, p, sx, sy, rules, check).len() implies generated_move_ok(
            b,
            p,
            sx,
            sy,
            #[trigger] moves_for_rules(b, p, sx, sy, rules, check)[i],
        ) by {
            if i < head.len() {
                assert(moves_for_rules(b, p, sx, sy, rules, check)[i] == head[i]);
            } else {
                assert(moves_for_rules(b, p, sx, sy, rules, check)[i] == last_part[i - head.len()]);
            }
        }
    }
}

/// Every move `valid_moves` can return satisfies `generated_move_ok`.
pub proof fn lemma_legal_moves_ok(b: Board, p: Piece, s: Square, check: bool)
    requires
        p.piece_type == PieceType::Pawn ==> !ep_square_holds_king(b, p.color),
    ensures
        forall|i: int|
            0 <= i < legal_moves(b, p, s, check).len() ==> generated_move_ok(
                b,
                p,
                s.x as int,
                s.y as int,
                #[trigger] legal_moves(b, p, s, check)[i],
            ),
{
    crate::piece::lemma_piece_rules_shape(p.piece_type, p.color);
    lemma_moves_targets_rules(
        b,
        p,
        s.x as int,
        s.y as int,
        piece_rules(p.piece_type, p.color),
        check,
    );
}

/// How `find_target` behaves when one move is appended.
proof fn lemma_find_target_push(ms: Seq<PieceMove>, x: PieceMove, to: Square)
    ensures
        find_target(ms.push(x), to) == (match find_target(ms, to) {
            Some(m) => Some(m),
            None => if x.target == to {
                Some(x)
            } else {
                None
            },
        }),
    decreases ms.len(),
{
    if ms.len() == 0 {
        assert(ms.push(x)[0] == x);
        assert(ms.push(x).drop_first() =~= Seq::<PieceMove>::empty());
    } else {
        assert(ms.push(x)[0] == ms[0]);
        assert(ms.push(x).drop_first() =~= ms.drop_first().push(x));
        lemma_find_target_push(ms.drop_first(), x, to);
    }
}

/// What `find_target` finds is a move of the sequence landing on `to`; when
/// it finds nothing, no move of the sequence lands there.
pub proof fn lemma_find_target_mem(ms: Seq<PieceMove>, to: Square)
    ensures
        match find_target(ms, to) {
            Some(m) => m.target == to && exists|i: int| 0 <= i < ms.len() && ms[i] == m,
            None => forall|i: int| 0 <= i < ms.len() ==> (#[trigger] ms[i]).target != to,
        },
    decreases ms.len(),
{
    if ms.len() == 0 {
    } else if ms[0].target == to {
        assert(ms[0] == ms[0] && 0 <= 0 < ms.len());
    } else {
        lemma_find_target_mem(ms.drop_first(), to);
        match find_target(ms.drop_first(), to) {
            Some(m) => {
                let i0 = choose|i: int|
                    0 <= i < ms.drop_first().len() && ms.drop_first()[i] == m;
                assert(ms[i0 + 1] == m);
            },
            None => {
                assert forall|i: int| 0 <= i < ms.len() implies (#[trigger] ms[i]).target
                    != to by {
                    if i >= 1 {
                        assert(ms[i] == ms.drop_first()[i - 1]);
                    }
                }
            },
        }
    }
}

/// The en-passant target recorded after a move: the skipped square of a
/// double pawn move landing on rank index 3 or 4, nothing otherwise.
pub open spec fn next_en_passant(m: PieceMove) -> Option<Square> {
    if m.move_type == MoveType::PawnDoubleMove {
        if m.target.y == 3 {
            Some(Square { x: m.target.x, y: 2 })
        } else if m.target.y == 4 {
            Some(Square { x: m.target.x, y: 5 })
        } else {
            None
        }
    } else {
        None
    }
}

/// The mover's castling rights after it moved: moving the King clears both,
/// moving a Rook whose initial file was 0 clears the kingside flag, moving
/// one whose initial file was 7 clears the queenside flag.
pub open spec fn next_castling(rights: Castling, p: Piece) -> Castling {
    if p.piece_type == PieceType::King {
        Castling { kingside: false, queenside: false }
    } else if p.piece_type == PieceType::Rook && p.initial_square.x == 0 {
        Castling { kingside: false, ..rights }
    } else if p.piece_type == PieceType::Rook && p.initial_square.x == 7 {
        Castling { queenside: false, ..rights }
    } else {
        rights
    }
}

/// The board after applying the move `m` of the piece `p` from `from` to
/// `to`, with every side effect of move application: the half-move clock
/// reset on a pawn move or capture and incremented otherwise, the mover's
/// move counter incremented, the en-passant victim removed, the castling
/// rook relocated with its counter incremented, the source cleared and the
/// destination set, the en-passant target and castling rights recomputed,
/// and the turn handed to the other color with the full-move number
/// incremented after Black's move.
pub open spec fn apply_move(b: Board, from: Square, to: Square, m: PieceMove, p: Piece) -> Board {
    let p1 = Piece { move_count: (p.move_count + 1) as u32, ..p };
    let capture = b.cell(to.x as int, to.y as int) is Some;
    let c0 = b.cells;
    let c1 = match b.en_passant_target {
        Some(e) => if m.move_type == MoveType::PawnCapture && m.target == e {
            let cap_y: int = if e.y == 2 {
                3
            } else {
                4
            };
            vstd::array::spec_array_update(c0, cell_index(to.x as int, cap_y), None)
        } else {
            c0
        },
        None => c0,
    };
    let c2 = if m.move_type == MoveType::Castling {
        let rook_from_x: int = if to.x > from.x {
            7
        } else {
            0
        };
        let rook_to_x: int = if to.x > from.x {
            to.x as int - 1
        } else {
            to.x as int + 1
        };
        let rook1 = match b.cell(rook_from_x, to.y as int) {
            Some(rk) => Piece { move_count: (rk.move_count + 1) as u32, ..rk },
            None => p1,
        };
        vstd::array::spec_array_update(
            vstd::array::spec_array_update(c1, cell_index(rook_from_x, to.y as int), None),
            cell_index(rook_to_x, to.y as int),
            Some(rook1),
        )
    } else {
        c1
    };
    let c3 = vstd::array::spec_array_update(c2, cell_index(from.x as int, from.y as int), None);
    let c4 = vstd::array::spec_array_update(c3, cell_index(to.x as int, to.y as int), Some(p1));
    Board {
        cells: c4,
        active_color: opposite(b.active_color),
        white_castling: if p.color == Color::White {
            next_castling(b.white_castling, p1)
        } else {
            b.white_castling
        },
        black_castling: if p.color == Color::Black {
            next_castling(b.black_castling, p1)
        } else {
            b.black_castling
        },
        en_passant_target: next_en_passant(m),
        half_moves: if p.piece_type == PieceType::Pawn || capture {
            0
        } else {
            (b.half_moves + 1) as u32
        },
        full_moves: if b.active_color == Color::Black {
            (b.full_moves + 1) as u32
        } else {
            b.full_moves
        },
    }
}

impl Board {
    fn update_en_passant(&mut self, piece_move: &PieceMove)
        ensures
            *final(self) == (Board { en_passant_target: next_en_passant(*piece_move), ..*old(self) }),
    {
        let mut en_passant_target: Option<Square> = None;
        if piece_move.move_type == MoveType::PawnDoubleMove {
            if piece_move.target.y == 3 {
                en_passant_target = Some(Square { x: piece_move.target.x, y: 2 });
            } else if piece_move.target.y == 4 {
                en_passant_target = Some(Square { x: piece_move.target.x, y: 5 });
            }
        }
        self.en_passant_target = en_passant_target;
    }

    fn update_castling_availability(&mut self, moved_piece: &Piece)
        ensures
            *final(self) == (Board {
                white_castling: if moved_piece.color == Color::White {
                    next_castling(old(self).white_castling, *moved_piece)
                } else {
                    old(self).white_castling
                },
                black_castling: if moved_piece.color == Color::Black {
                    next_castling(old(self).black_castling, *moved_piece)
                } else {
                    old(self).black_castling
                },
                ..*old(self)
            }),
    {
        let rights = match moved_piece.color {
            Color::Black => &mut self.black_castling,
            Color::White => &mut self.white_castling,
        };
        if moved_piece.piece_type == PieceType::King {
            *rights = Castling::none();
        } else if moved_piece.piece_type == PieceType::Rook && moved_piece.initial_square.x == 0 {
            rights.kingside = false;
        } else if moved_piece.piece_type == PieceType::Rook && moved_piece.initial_square.x == 7 {
            rights.queenside = false;
        }
    }

    /// Play a move on the board. The result says whether the move was a
    /// valid regular move, a valid move that now awaits pawn promotion, or
    /// invalid; an invalid request leaves the board unchanged.
    pub fn play_move(&mut self, from: Square, to: Square) -> (r: MoveResult)
        requires
            from.x < 8,
            from.y < 8,
            match old(self).cell(from.x as int, from.y as int) {
                Some(p) => {
                    &&& exactly_one_king(*old(self), p.color)
                    &&& (p.piece_type == PieceType::Pawn ==> !ep_square_holds_king(
                        *old(self),
                        p.color,
                    ))
                    &&& (match find_target(legal_moves(*old(self), p, from, true), to) {
                        Some(_) => {
                            &&& p.move_count < u32::MAX
                            &&& (old(self).active_color == Color::Black ==> old(
                                self,
                            ).full_moves < u32::MAX)
                            &&& (p.piece_type != PieceType::Pawn && old(self).cell(
                                to.x as int,
                                to.y as int,
                            ) is None ==> old(self).half_moves < u32::MAX)
                        },
                        None => true,
                    })
                },
                None => true,
            },
        ensures
            match old(self).cell(from.x as int, from.y as int) {
                Some(p) => match find_target(legal_moves(*old(self), p, from, true), to) {
                    Some(m) => {
                        &&& *final(self) == apply_move(*old(self), from, to, m, p)
                        &&& r == (if (to.y == 0 || to.y == 7) && p.piece_type == PieceType::Pawn {
                            MoveResult::PawnPromote
                        } else {
                            MoveResult::Accepted
                        })
                    },
                    None => r == MoveResult::Invalid && *final(self) == *old(self),
                },
                None => r == MoveResult::Invalid && *final(self) == *old(self),
            },
    {
        let ghost b0 = *self;
        let from_cell = *self.piece(from.x, from.y);
        match from_cell {
            None => MoveResult::Invalid,
            Some(piece0) => {
                let valid = self.valid_moves(&piece0, &from, true);
                let mut i: usize = 0;
                let mut chosen: Option<PieceMove> = None;
                while i < valid.len()
                    invariant
                        i <= valid.len(),
                        chosen == find_target(valid@.take(i as int), to),
                    decreases valid.len() - i,
                {
                    if chosen.is_none() {
                        let m = valid[i];
                        proof {
                            assert(valid@.take((i + 1) as int) =~= valid@.take(i as int).push(m));
                            lemma_find_target_push(valid@.take(i as int), m, to);
                        }
                        if m.target == to {
                            chosen = Some(m);
                        }
                    } else {
                        proof {
                            assert(valid@.take((i + 1) as int) =~= valid@.take(i as int).push(
                                valid@[i as int],
                            ));
                            lemma_find_target_push(valid@.take(i as int), valid@[i as int], to);
                        }
                    }
                    i = i + 1;
                }
                proof {
                    assert(valid@.take(valid@.len() as int) =~= valid@);
                }
                match chosen {
                    None => MoveResult::Invalid,
                    Some(valid_move) => {
                        proof {
                            lemma_legal_moves_ok(b0, piece0, from, true);
                            lemma_find_target_mem(valid@, to);
                            let wi = choose|j: int|
                                0 <= j < valid@.len() && valid@[j] == valid_move;
                            assert(generated_move_ok(
                                b0,
                                piece0,
                                from.x as int,
                                from.y as int,
                                valid_move,
                            ));
                        }
                        let mut piece = piece0;
                        if piece.piece_type == PieceType::Pawn || self.piece(to.x, to.y).is_some() {
                            self.half_moves = 0;
                        } else {
                            self.half_moves = self.half_moves + 1;
                        }
                        piece.increment_move_count();
                        match self.en_passant_target {
                            Some(ept) => {
                                if valid_move.move_type == MoveType::PawnCapture
                                    && valid_move.target == ept {
                                    let capture_y: u8 = if ept.y == 2 {
                                        3
                                    } else {
                                        4
                                    };
                                    let ci = index_of(to.x, capture_y);
                                    self.cells[ci] = None;
                                }
                            },
                            None => {},
                        }
                        if valid_move.move_type == MoveType::Castling {
                            let (rook_from_x, rook_to_x): (u8, u8) = if to.x > from.x {
                                (7, to.x - 1)
                            } else {
                                (0, to.x + 1)
                            };
                            let mut rook = match *self.piece(rook_from_x, to.y) {
                                Some(rk) => rk,
                                None => {
                                    proof {
                                        assert(false);
                                    }
                                    vstd::pervasive::unreached()
                                },
                            };
                            rook.increment_move_count();
                            let rfi = index_of(rook_from_x, to.y);
                            self.cells[rfi] = None;
                            let rti = index_of(rook_to_x, to.y);
                            self.cells[rti] = Some(rook);
                        }
                        let fi = index_of(from.x, from.y);
                        self.cells[fi] = None;
                        let ti = index_of(to.x, to.y);
                        self.cells[ti] = Some(piece);
                        self.update_en_passant(&valid_move);
                        self.update_castling_availability(&piece);
                        if self.active_color == Color::Black {
                            self.full_moves = self.full_moves + 1;
                            self.active_color = Color::White;
                        } else {
                            self.active_color = Color::Black;
                        }
                        proof {
                            assert(self.cells =~= apply_move(b0, from, to, valid_move, piece0).cells);
                            assert(*self == apply_move(b0, from, to, valid_move, piece0));
                        }
                        if (to.y == 0 || to.y == 7) && piece.piece_type == PieceType::Pawn {
                            MoveResult::PawnPromote
                        } else {
                            MoveResult::Accepted
                        }
                    },
                }
            },
        }
    }
}



/// Law: after any applied move, the side to move is the opposite of what it
/// was before the move. (That a rejected move leaves it unchanged is part of
/// `play_move`'s contract.)
pub proof fn lemma_turn_alternation(b: Board, from: Square, to: Square, m: PieceMove, p: Piece)
    ensures
        apply_move(b, from, to, m, p).active_color == opposite(b.active_color),
{
}

/// Law: the half-move clock is 0 immediately after a pawn move or a
/// capturing move, and exactly one more than before after any other applied
/// move.
pub proof fn lemma_half_move_clock(b: Board, from: Square, to: Square, m: PieceMove, p: Piece)
    ensures
        (p.piece_type == PieceType::Pawn || b.cell(to.x as int, to.y as int) is Some)
            ==> apply_move(b, from, to, m, p).half_moves == 0,
        (p.piece_type != PieceType::Pawn && b.cell(to.x as int, to.y as int) is None
            && b.half_moves < u32::MAX) ==> apply_move(b, from, to, m, p).half_moves
            == b.half_moves + 1,
{
}

/// Law: the full-move number increments exactly when the move just applied
/// was made while Black was the side to move.
pub proof fn lemma_full_move_number(b: Board, from: Square, to: Square, m: PieceMove, p: Piece)
    requires
        b.active_color == Color::Black ==> b.full_moves < u32::MAX,
    ensures
        apply_move(b, from, to, m, p).full_moves == (if b.active_color == Color::Black {
            b.full_moves + 1
        } else {
            b.full_moves as int
        }),
{
}

/// Every move granted under the king-safety filter passes that filter.
proof fn lemma_moves_safe(b: Board, p: Piece, sx: int, sy: int, rules: Seq<MoveRule>)
    ensures
        forall|i: int|
            0 <= i < moves_for_rules(b, p, sx, sy, rules, true).len() ==> move_is_safe(
                b,
                p,
                sx,
                sy,
                #[trigger] moves_for_rules(b, p, sx, sy, rules, true)[i],
            ),
    decreases rules.len(),
{
    if rules.len() == 0 {
    } else {
        lemma_moves_safe(b, p, sx, sy, rules.drop_last());
        let head = moves_for_rules(b, p, sx, sy, rules.drop_last(), true);
        let last_all = rule_moves(b, p, sx, sy, rules.last());
        let pred = safe_pred(b, p, sx, sy);
        let last_part = last_all.filter(pred);
        assert forall|i: int|
            0 <= i < moves_for_rules(b, p, sx, sy, rules, true).len() implies move_is_safe(
            b,
            p,
            sx,
            sy,
            #[trigger] moves_for_rules(b, p, sx, sy, rules, true)[i],
        ) by {
            if i < head.len() {
                assert(moves_for_rules(b, p, sx, sy, rules, true)[i] == head[i]);
            } else {
                let j = i - head.len();
                last_all.lemma_filter_pred(pred, j);
                assert(moves_for_rules(b, p, sx, sy, rules, true)[i] == last_part[j]);
            }
        }
    }
}

/// Law: no move returned by king-safety-filtered generation leaves the
/// mover's own king attacked after the relocation it simulates (the piece
/// written onto the move's target, its source square cleared).
pub proof fn lemma_king_safety(b: Board, p: Piece, s: Square, m: PieceMove)
    requires
        legal_moves(b, p, s, true).contains(m),
    ensures
        !attacked(relocated(b, p, s.x as int, s.y as int, m.target), p.color),
{
    lemma_moves_safe(b, p, s.x as int, s.y as int, piece_rules(p.piece_type, p.color));
    let i = choose|i: int|
        0 <= i < legal_moves(b, p, s, true).len() && legal_moves(b, p, s, true)[i] == m;
    assert(move_is_safe(b, p, s.x as int, s.y as int, legal_moves(b, p, s, true)[i]));
}

/// Law: a ray of line-of-sight moves advances one step at a time from its
/// origin, never passes beyond the first occupied square it meets, returns
/// that square exactly when it holds an enemy piece, and otherwise stops
/// only at the board edge or before a piece of the moving color.
pub proof fn lemma_sliding_blockage(b: Board, c: Color, x: int, y: int, dx: int, dy: int)
    requires
        in_bounds(x, y),
        !(dx == 0 && dy == 0),
    ensures
        ({
            let r = ray_moves(b, c, x, y, dx, dy);
            &&& forall|i: int|
                0 <= i < r.len() ==> (#[trigger] r[i]).target == sqr(
                    x + (i + 1) * dx,
                    y + (i + 1) * dy,
                ) && in_bounds(x + (i + 1) * dx, y + (i + 1) * dy)
            &&& forall|i: int|
                0 <= i < r.len() - 1 ==> #[trigger] b.cell(x + (i + 1) * dx, y + (i + 1) * dy)
                    is None
            &&& (r.len() > 0 ==> match b.cell(x + r.len() * dx, y + r.len() * dy) {
                Some(q) => q.color != c,
                None => true,
            })
            &&& ((r.len() == 0 || b.cell(x + r.len() * dx, y + r.len() * dy) is None) ==> {
                let nx = x + (r.len() + 1) * dx;
                let ny = y + (r.len() + 1) * dy;
                !in_bounds(nx, ny) || (match b.cell(nx, ny) {
                    Some(q) => q.color == c,
                    None => false,
                })
            })
        }),
    decreases ray_metric(x, y, dx, dy),
{
    let r = ray_moves(b, c, x, y, dx, dy);
    let tx = x + dx;
    let ty = y + dy;
    assert(1 * dx == dx && 1 * dy == dy) by (nonlinear_arith);
    assert(2 * dx == dx + dx && 2 * dy == dy + dy) by (nonlinear_arith);
    if !in_bounds(tx, ty) {
        assert(r.len() == 0);
    } else {
        match b.cell(tx, ty) {
            Some(q) => {
                if q.color == c {
                    assert(r.len() == 0);
                } else {
                    assert(r.len() == 1);
                    assert(r[0].target == sqr(tx, ty));
                }
            },
            None => {
                lemma_sliding_blockage(b, c, tx, ty, dx, dy);
                let rest = ray_moves(b, c, tx, ty, dx, dy);
                let head = seq![
                    PieceMove { move_type: MoveType::LineOfSight, target: sqr(tx, ty) },
                ];
                assert(r == head + rest);
                assert(r.len() == rest.len() + 1);
                assert forall|i: int|
                    0 <= i < r.len() implies (#[trigger] r[i]).target == sqr(
                    x + (i + 1) * dx,
                    y + (i + 1) * dy,
                ) && in_bounds(x + (i + 1) * dx, y + (i + 1) * dy) by {
                    assert((i + 1) * dx == dx + i * dx && (i + 1) * dy == dy + i * dy)
                        by (nonlinear_arith);
                    if i == 0 {
                        assert(0 * dx == 0 && 0 * dy == 0) by (nonlinear_arith);
                        assert(r[0] == head[0]);
                    } else {
                        assert(r[i] == rest[i - 1]);
                        assert(rest[i - 1].target == sqr(
                            tx + ((i - 1) + 1) * dx,
                            ty + ((i - 1) + 1) * dy,
                        ));
                        assert(in_bounds(tx + ((i - 1) + 1) * dx, ty + ((i - 1) + 1) * dy));
                    }
                }
                assert forall|i: int| 0 <= i < r.len() - 1 implies #[trigger] b.cell(
                    x + (i + 1) * dx,
                    y + (i + 1) * dy,
                ) is None by {
                    assert((i + 1) * dx == dx + i * dx && (i + 1) * dy == dy + i * dy)
                        by (nonlinear_arith);
                    if i == 0 {
                        assert(0 * dx == 0 && 0 * dy == 0) by (nonlinear_arith);
                    } else {
                        assert(b.cell(tx + ((i - 1) + 1) * dx, ty + ((i - 1) + 1) * dy) is None);
                    }
                }
                let n = r.len() as int;
                let rl = rest.len() as int;
                assert(n * dx == dx + (n - 1) * dx && n * dy == dy + (n - 1) * dy)
                    by (nonlinear_arith);
                assert((n + 1) * dx == dx + ((n - 1) + 1) * dx && (n + 1) * dy == dy + ((n - 1)
                    + 1) * dy) by (nonlinear_arith);
                if rl == 0 {
                    assert(1 * dx == dx && 1 * dy == dy) by (nonlinear_arith);
                    assert(b.cell(x + n * dx, y + n * dy) == b.cell(tx, ty));
                } else {
                    assert(b.cell(x + n * dx, y + n * dy) == b.cell(tx + rl * dx, ty + rl * dy));
                    assert(b.cell(x + (n + 1) * dx, y + (n + 1) * dy) == b.cell(
                        tx + (rl + 1) * dx,
                        ty + (rl + 1) * dy,
                    ));
                }
            },
        }
    }
}


} // verus!
