use vstd::prelude::*;
use vstd::string::StrSliceExecFns;
use vstd::string::StringExecFns;

use crate::board::cell_index;
use crate::board::in_bounds;
use crate::board::lemma_index_inj;
use crate::board::placed_piece;
use crate::board::Board;
use crate::board::Castling;
use crate::color::Color;
use crate::piece::Piece;
use crate::piece::PieceType;
use crate::square::algebraic_chars;
use crate::square::parse_square;
use crate::square::Square;

verus! {

// ---------------------------------------------------------------------------
// Character-level vocabulary
// ---------------------------------------------------------------------------
/// The decimal digit character for `d` in 0..10.
pub open spec fn digit_char(d: int) -> char {
    if d == 0 {
        '0'
    } else if d == 1 {
        '1'
    } else if d == 2 {
        '2'
    } else if d == 3 {
        '3'
    } else if d == 4 {
        '4'
    } else if d == 5 {
        '5'
    } else if d == 6 {
        '6'
    } else if d == 7 {
        '7'
    } else if d == 8 {
        '8'
    } else {
        '9'
    }
}

/// The value of a decimal digit character.
pub open spec fn dec_digit(c: char) -> Option<int> {
    if c == '0' {
        Some(0int)
    } else if c == '1' {
        Some(1int)
    } else if c == '2' {
        Some(2int)
    } else if c == '3' {
        Some(3int)
    } else if c == '4' {
        Some(4int)
    } else if c == '5' {
        Some(5int)
    } else if c == '6' {
        Some(6int)
    } else if c == '7' {
        Some(7int)
    } else if c == '8' {
        Some(8int)
    } else if c == '9' {
        Some(9int)
    } else {
        None
    }
}

/// The piece letter of the FEN placement field: lowercase for Black,
/// uppercase for White.
pub open spec fn piece_char(p: Piece) -> char {
    match (p.piece_type, p.color) {
        (PieceType::Pawn, Color::Black) => 'p',
        (PieceType::Knight, Color::Black) => 'n',
        (PieceType::Bishop, Color::Black) => 'b',
        (PieceType::Rook, Color::Black) => 'r',
        (PieceType::Queen, Color::Black) => 'q',
        (PieceType::King, Color::Black) => 'k',
        (PieceType::Pawn, Color::White) => 'P',
        (PieceType::Knight, Color::White) => 'N',
        (PieceType::Bishop, Color::White) => 'B',
        (PieceType::Rook, Color::White) => 'R',
        (PieceType::Queen, Color::White) => 'Q',
        (PieceType::King, Color::White) => 'K',
    }
}

/// The piece type and color denoted by a FEN placement letter.
pub open spec fn char_piece(c: char) -> Option<(PieceType, Color)> {
    if c == 'p' {
        Some((PieceType::Pawn, Color::Black))
    } else if c == 'n' {
        Some((PieceType::Knight, Color::Black))
    } else if c == 'b' {
        Some((PieceType::Bishop, Color::Black))
    } else if c == 'r' {
        Some((PieceType::Rook, Color::Black))
    } else if c == 'q' {
        Some((PieceType::Queen, Color::Black))
    } else if c == 'k' {
        Some((PieceType::King, Color::Black))
    } else if c == 'P' {
        Some((PieceType::Pawn, Color::White))
    } else if c == 'N' {
        Some((PieceType::Knight, Color::White))
    } else if c == 'B' {
        Some((PieceType::Bishop, Color::White))
    } else if c == 'R' {
        Some((PieceType::Rook, Color::White))
    } else if c == 'Q' {
        Some((PieceType::Queen, Color::White))
    } else if c == 'K' {
        Some((PieceType::King, Color::White))
    } else {
        None
    }
}

/// The active-color letter.
pub open spec fn color_char(c: Color) -> char {
    match c {
        Color::White => 'w',
        Color::Black => 'b',
    }
}

// ---------------------------------------------------------------------------
// Encoding, specified
// ---------------------------------------------------------------------------
/// The FEN text of one rank from file `x` on, with `pending` empty squares
/// seen just before `x` and not yet written out.
pub open spec fn row_from(b: Board, y: int, x: int, pending: int) -> Seq<char>
    decreases 8 - x,
{
    if x >= 8 {
        if pending > 0 {
            seq![digit_char(pending)]
        } else {
            Seq::empty()
        }
    } else {
        match b.cell(x, y) {
            Some(p) => (if pending > 0 {
                seq![digit_char(pending)]
            } else {
                Seq::empty()
            }) + seq![piece_char(p)] + row_from(b, y, x + 1, 0),
            None => row_from(b, y, x + 1, pending + 1),
        }
    }
}

/// The FEN placement text of the ranks from `y` down to rank 0, top rank
/// first, separated by slashes.
pub open spec fn rows_from(b: Board, y: int) -> Seq<char>
    decreases y,
{
    if y <= 0 {
        row_from(b, 0, 0, 0)
    } else {
        row_from(b, y, 0, 0) + seq!['/'] + rows_from(b, y - 1)
    }
}

/// The FEN castling-availability field: a subset of "KQkq", or "-" when no
/// right remains.
pub open spec fn castling_chars(b: Board) -> Seq<char> {
    let s = (if b.white_castling.kingside {
        seq!['K']
    } else {
        Seq::empty()
    }) + (if b.white_castling.queenside {
        seq!['Q']
    } else {
        Seq::empty()
    }) + (if b.black_castling.kingside {
        seq!['k']
    } else {
        Seq::empty()
    }) + (if b.black_castling.queenside {
        seq!['q']
    } else {
        Seq::empty()
    });
    if s.len() == 0 {
        seq!['-']
    } else {
        s
    }
}

/// The FEN en-passant field: the target square in algebraic form, or "-".
pub open spec fn ep_chars(b: Board) -> Seq<char> {
    match b.en_passant_target {
        Some(e) => algebraic_chars(e),
        None => seq!['-'],
    }
}

/// The decimal rendering of a non-negative number.
pub open spec fn dec_chars(n: int) -> Seq<char>
    decreases n,
{
    if n < 10 {
        seq![digit_char(n)]
    } else {
        dec_chars(n / 10).push(digit_char(n % 10))
    }
}

/// The full FEN text of a board: six space-separated fields.
pub open spec fn fen_chars(b: Board) -> Seq<char> {
    rows_from(b, 7) + seq![' ', color_char(b.active_color)] + seq![' '] + castling_chars(b)
        + seq![' '] + ep_chars(b) + seq![' '] + dec_chars(b.half_moves as int) + seq![' ']
        + dec_chars(b.full_moves as int)
}

// ---------------------------------------------------------------------------
// Decoding, specified
// ---------------------------------------------------------------------------
/// The first position at or after `i` that does not hold a space.
pub open spec fn skip_sp(s: Seq<char>, i: int) -> int
    decreases s.len() - i,
{
    if 0 <= i < s.len() && s[i] == ' ' {
        skip_sp(s, i + 1)
    } else {
        i
    }
}

/// The first position at or after `i` that holds a space, or the end.
pub open spec fn tok_end(s: Seq<char>, i: int) -> int
    decreases s.len() - i,
{
    if 0 <= i < s.len() && s[i] != ' ' {
        tok_end(s, i + 1)
    } else {
        i
    }
}

/// Scan the placement field from position `i` to `end`, with the running
/// file and rank and the placements read so far; fails on an unknown
/// character, a rank below the last, or a rank wider than the board.
pub open spec fn place_scan(
    s: Seq<char>,
    i: int,
    end: int,
    file: int,
    rank: int,
    acc: Map<(int, int), (PieceType, Color)>,
) -> Option<Map<(int, int), (PieceType, Color)>>
    decreases end - i,
{
    if i >= end {
        Some(acc)
    } else {
        let c = s[i];
        if c == '/' {
            if rank == 0 {
                None
            } else {
                place_scan(s, i + 1, end, 0, rank - 1, acc)
            }
        } else {
            match dec_digit(c) {
                Some(d) => if file + d > 8 {
                    None
                } else {
                    place_scan(s, i + 1, end, file + d, rank, acc)
                },
                None => match char_piece(c) {
                    Some(tc) => if file >= 8 {
                        None
                    } else {
                        place_scan(s, i + 1, end, file + 1, rank, acc.insert((file, rank), tc))
                    },
                    None => None,
                },
            }
        }
    }
}

/// Read a decimal number from `[i, end)` on top of the value `acc` read so
/// far; fails on a non-digit or a value that does not fit in 32 bits.
pub open spec fn parse_num(s: Seq<char>, i: int, end: int, acc: int) -> Option<int>
    decreases end - i,
{
    if i >= end {
        Some(acc)
    } else {
        match dec_digit(s[i]) {
            Some(d) => if acc * 10 + d > u32::MAX as int {
                None
            } else {
                parse_num(s, i + 1, end, acc * 10 + d)
            },
            None => None,
        }
    }
}

/// Whether `c` occurs in `s[i, end)`.
pub open spec fn tok_has(s: Seq<char>, i: int, end: int, c: char) -> bool {
    exists|j: int| i <= j < end && s[j] == c
}

/// Start of the active-color token.
pub open spec fn tok1_start(s: Seq<char>) -> int {
    skip_sp(s, tok_end(s, 0))
}

/// End of the active-color token.
pub open spec fn tok1_end(s: Seq<char>) -> int {
    tok_end(s, tok1_start(s))
}

/// Start of the castling-availability token.
pub open spec fn tok2_start(s: Seq<char>) -> int {
    skip_sp(s, tok1_end(s))
}

/// End of the castling-availability token.
pub open spec fn tok2_end(s: Seq<char>) -> int {
    tok_end(s, tok2_start(s))
}

/// Start of the en-passant token.
pub open spec fn tok3_start(s: Seq<char>) -> int {
    skip_sp(s, tok2_end(s))
}

/// End of the en-passant token.
pub open spec fn tok3_end(s: Seq<char>) -> int {
    tok_end(s, tok3_start(s))
}

/// Start of the half-move-clock token.
pub open spec fn tok4_start(s: Seq<char>) -> int {
    skip_sp(s, tok3_end(s))
}

/// End of the half-move-clock token.
pub open spec fn tok4_end(s: Seq<char>) -> int {
    tok_end(s, tok4_start(s))
}

/// Start of the full-move-number token.
pub open spec fn tok5_start(s: Seq<char>) -> int {
    skip_sp(s, tok4_end(s))
}

/// End of the full-move-number token.
pub open spec fn tok5_end(s: Seq<char>) -> int {
    tok_end(s, tok5_start(s))
}

/// The value held by an optional number, with 0 for absence.
pub open spec fn opt_num(o: Option<int>) -> int {
    match o {
        Some(v) => v,
        None => 0,
    }
}

/// The placement map of a well-formed FEN text.
pub open spec fn placement_map(s: Seq<char>) -> Map<(int, int), (PieceType, Color)> {
    match place_scan(s, 0, tok_end(s, 0), 0, 7, Map::empty()) {
        Some(m) => m,
        None => Map::empty(),
    }
}

/// Whether `s` is a FEN text this codec decodes: a parsable placement field
/// followed by at least five space-separated fields holding the active
/// color, the castling availability, the en-passant target, and two
/// 32-bit-sized decimal clocks.
pub open spec fn fen_ok(s: Seq<char>) -> bool {
    &&& tok_end(s, 0) < s.len()
    &&& place_scan(s, 0, tok_end(s, 0), 0, 7, Map::empty()) is Some
    &&& tok1_start(s) < s.len()
    &&& tok1_end(s) == tok1_start(s) + 1
    &&& (s[tok1_start(s)] == 'w' || s[tok1_start(s)] == 'b')
    &&& tok2_start(s) < s.len()
    &&& tok3_start(s) < s.len()
    &&& tok4_start(s) < s.len()
    &&& parse_num(s, tok4_start(s), tok4_end(s), 0) is Some
    &&& tok5_start(s) < s.len()
    &&& parse_num(s, tok5_start(s), tok5_end(s), 0) is Some
}

/// What decoding a well-formed FEN text yields: each cell as the placement
/// field places it (a fresh piece on its own initial square), and the five
/// metadata fields as written.
pub open spec fn fen_decodes_to(s: Seq<char>, b: Board) -> bool {
    let m = placement_map(s);
    &&& fen_ok(s)
    &&& forall|x: int, y: int|
        in_bounds(x, y) ==> #[trigger] b.cell(x, y) == (if m.dom().contains((x, y)) {
            Some(placed_piece(m[(x, y)].0, m[(x, y)].1, x, y))
        } else {
            None
        })
    &&& b.active_color == (if s[tok1_start(s)] == 'b' {
        Color::Black
    } else {
        Color::White
    })
    &&& b.white_castling == (Castling {
        kingside: tok_has(s, tok2_start(s), tok2_end(s), 'K'),
        queenside: tok_has(s, tok2_start(s), tok2_end(s), 'Q'),
    })
    &&& b.black_castling == (Castling {
        kingside: tok_has(s, tok2_start(s), tok2_end(s), 'k'),
        queenside: tok_has(s, tok2_start(s), tok2_end(s), 'q'),
    })
    &&& b.en_passant_target == parse_square(s.subrange(tok3_start(s), tok3_end(s)))
    &&& b.half_moves == opt_num(parse_num(s, tok4_start(s), tok4_end(s), 0))
    &&& b.full_moves == opt_num(parse_num(s, tok5_start(s), tok5_end(s), 0))
}

// ---------------------------------------------------------------------------
// The two codec traits
// ---------------------------------------------------------------------------
/// Construction from FEN text.
pub trait FromFen: Sized {
    /// Whether this text is well-formed for the implementor.
    spec fn fen_parsable(s: Seq<char>) -> bool;

    /// What a well-formed text decodes to.
    spec fn fen_decoded(s: Seq<char>, r: Self) -> bool;

    /// Constructs a new Self from the given FEN string.
    fn from_fen(fen: &str) -> (r: Self)
        requires
            Self::fen_parsable(fen@),
        ensures
            Self::fen_decoded(fen@, r),
    ;
}

/// Rendering to FEN text.
pub trait IntoFen: Sized {
    /// Whether this value can be rendered (every coordinate it mentions is
    /// on the board).
    spec fn fen_encodable(self) -> bool;

    /// The text this value renders to.
    spec fn fen_text(self) -> Seq<char>;

    /// Constructs a new FEN string from Self.
    fn into_fen(self) -> (r: String)
        requires
            self.fen_encodable(),
        ensures
            r@ == self.fen_text(),
    ;
}

// ---------------------------------------------------------------------------
// Executable helpers
// ---------------------------------------------------------------------------
/// The piece type and color a FEN placement letter denotes, if any.
fn fen_char_to_piece(c: char) -> (r: Option<(PieceType, Color)>)
    ensures
        r == char_piece(c),
{
    match c {
        'p' => Some((PieceType::Pawn, Color::Black)),
        'n' => Some((PieceType::Knight, Color::Black)),
        'b' => Some((PieceType::Bishop, Color::Black)),
        'r' => Some((PieceType::Rook, Color::Black)),
        'q' => Some((PieceType::Queen, Color::Black)),
        'k' => Some((PieceType::King, Color::Black)),
        'P' => Some((PieceType::Pawn, Color::White)),
        'N' => Some((PieceType::Knight, Color::White)),
        'B' => Some((PieceType::Bishop, Color::White)),
        'R' => Some((PieceType::Rook, Color::White)),
        'Q' => Some((PieceType::Queen, Color::White)),
        'K' => Some((PieceType::King, Color::White)),
        _ => None,
    }
}

/// The FEN placement letter for a piece: lowercase for Black, uppercase
/// for White.
fn piece_to_fen_char(piece: &Piece) -> (r: String)
    ensures
        r@ == seq![piece_char(*piece)],
{
    let ps: &str = match (piece.piece_type, piece.color) {
        (PieceType::Pawn, Color::Black) => "p",
        (PieceType::Knight, Color::Black) => "n",
        (PieceType::Bishop, Color::Black) => "b",
        (PieceType::Rook, Color::Black) => "r",
        (PieceType::Queen, Color::Black) => "q",
        (PieceType::King, Color::Black) => "k",
        (PieceType::Pawn, Color::White) => "P",
        (PieceType::Knight, Color::White) => "N",
        (PieceType::Bishop, Color::White) => "B",
        (PieceType::Rook, Color::White) => "R",
        (PieceType::Queen, Color::White) => "Q",
        (PieceType::King, Color::White) => "K",
    };
    let r = String::from_str(ps);
    proof {
        reveal_strlit("p");
        reveal_strlit("n");
        reveal_strlit("b");
        reveal_strlit("r");
        reveal_strlit("q");
        reveal_strlit("k");
        reveal_strlit("P");
        reveal_strlit("N");
        reveal_strlit("B");
        reveal_strlit("R");
        reveal_strlit("Q");
        reveal_strlit("K");
        assert(r@ =~= seq![piece_char(*piece)]);
    }
    r
}

/// The decimal value of a digit character, if any.
fn digit_of(c: char) -> (r: Option<u8>)
    ensures
        match r {
            Some(d) => dec_digit(c) == Some(d as int),
            None => dec_digit(c) is None,
        },
{
    match c {
        '0' => Some(0),
        '1' => Some(1),
        '2' => Some(2),
        '3' => Some(3),
        '4' => Some(4),
        '5' => Some(5),
        '6' => Some(6),
        '7' => Some(7),
        '8' => Some(8),
        '9' => Some(9),
        _ => None,
    }
}

fn skip_spaces(fen: &str, n: usize, i0: usize) -> (r: usize)
    requires
        n == fen@.len(),
        i0 <= n,
    ensures
        r as int == skip_sp(fen@, i0 as int),
        i0 <= r <= n,
{
    let mut i = i0;
    while i < n && fen.get_char(i) == ' '
        invariant
            i0 <= i <= n,
            n == fen@.len(),
            skip_sp(fen@, i0 as int) == skip_sp(fen@, i as int),
        decreases n - i,
    {
        i = i + 1;
    }
    i
}

fn token_end(fen: &str, n: usize, i0: usize) -> (r: usize)
    requires
        n == fen@.len(),
        i0 <= n,
    ensures
        r as int == tok_end(fen@, i0 as int),
        i0 <= r <= n,
{
    let mut i = i0;
    while i < n && fen.get_char(i) != ' '
        invariant
            i0 <= i <= n,
            n == fen@.len(),
            tok_end(fen@, i0 as int) == tok_end(fen@, i as int),
        decreases n - i,
    {
        i = i + 1;
    }
    i
}

fn parse_clock(fen: &str, n: usize, a: usize, b: usize) -> (r: u32)
    requires
        n == fen@.len(),
        a <= b <= n,
        parse_num(fen@, a as int, b as int, 0) is Some,
    ensures
        r as int == opt_num(parse_num(fen@, a as int, b as int, 0)),
{
    let mut acc: u32 = 0;
    let mut i = a;
    while i < b
        invariant
            a <= i <= b,
            b <= n,
            n == fen@.len(),
            parse_num(fen@, a as int, b as int, 0) == parse_num(fen@, i as int, b as int, acc as int),
            parse_num(fen@, a as int, b as int, 0) is Some,
        decreases b - i,
    {
        let c = fen.get_char(i);
        let d = match digit_of(c) {
            Some(d) => d,
            None => {
                proof {
                    assert(false);
                }
                0
            },
        };
        let wide: u64 = acc as u64 * 10 + d as u64;
        proof {
            if wide > u32::MAX as u64 {
                assert(false);
            }
        }
        acc = wide as u32;
        i = i + 1;
    }
    acc
}

/// Append the decimal rendering of `n`.
fn push_decimal(s: &mut String, n: u32)
    ensures
        final(s)@ == old(s)@ + dec_chars(n as int),
    decreases n,
{
    if n >= 10 {
        push_decimal(s, n / 10);
    }
    let d = n % 10;
    let ds: &str = match d {
        0 => "0",
        1 => "1",
        2 => "2",
        3 => "3",
        4 => "4",
        5 => "5",
        6 => "6",
        7 => "7",
        8 => "8",
        _ => "9",
    };
    s.append(ds);
    proof {
        reveal_strlit("0");
        reveal_strlit("1");
        reveal_strlit("2");
        reveal_strlit("3");
        reveal_strlit("4");
        reveal_strlit("5");
        reveal_strlit("6");
        reveal_strlit("7");
        reveal_strlit("8");
        reveal_strlit("9");
        assert(s@ =~= old(s)@ + dec_chars(n as int));
    }
}


/// Extending a token scan by one character finds `c` exactly when the scan
/// so far found it or the new character is `c`.
proof fn lemma_tok_has_step(s: Seq<char>, a: int, j: int, c: char)
    requires
        a <= j,
    ensures
        tok_has(s, a, j + 1, c) == (tok_has(s, a, j, c) || s[j] == c),
{
    if tok_has(s, a, j, c) {
        let w = choose|w: int| a <= w < j && s[w] == c;
        assert(a <= w < j + 1 && s[w] == c);
    }
    if s[j] == c {
        assert(a <= j < j + 1 && s[j] == c);
    }
    if tok_has(s, a, j + 1, c) && s[j] != c {
        let w = choose|w: int| a <= w < j + 1 && s[w] == c;
        assert(a <= w < j && s[w] == c);
    }
}

impl FromFen for Board {
    open spec fn fen_parsable(s: Seq<char>) -> bool {
        fen_ok(s)
    }

    open spec fn fen_decoded(s: Seq<char>, r: Self) -> bool {
        fen_decodes_to(s, r)
    }

    fn from_fen(fen: &str) -> (r: Self) {
        let ghost s = fen@;
        let n = fen.unicode_len();
        let p_end = token_end(fen, n, 0);
        proof {
            assert(p_end as int == tok_end(s, 0));
        }
        let mut board = Board::empty();
        let mut i: usize = 0;
        let mut file: u8 = 0;
        let mut rank: u8 = 7;
        let ghost mut acc: Map<(int, int), (PieceType, Color)> = Map::empty();
        while i < p_end
            invariant
                i <= p_end,
                p_end <= n,
                n == s.len(),
                s == fen@,
                file <= 8,
                rank <= 7,
                place_scan(s, 0, p_end as int, 0, 7, Map::empty()) is Some,
                place_scan(s, 0, p_end as int, 0, 7, Map::empty()) == place_scan(
                    s,
                    i as int,
                    p_end as int,
                    file as int,
                    rank as int,
                    acc,
                ),
                board.en_passant_target is None,
                forall|x: int, y: int|
                    in_bounds(x, y) ==> #[trigger] board.cell(x, y) == (if acc.dom().contains(
                        (x, y),
                    ) {
                        Some(placed_piece(acc[(x, y)].0, acc[(x, y)].1, x, y))
                    } else {
                        None
                    }),
            decreases p_end - i,
        {
            let c = fen.get_char(i);
            if c == '/' {
                proof {
                    if rank == 0 {
                        assert(false);
                    }
                }
                rank = rank - 1;
                file = 0;
            } else {
                match digit_of(c) {
                    Some(d) => {
                        let f2 = file + d;
                        proof {
                            if f2 > 8 {
                                assert(false);
                            }
                        }
                        file = f2;
                    },
                    None => {
                        match fen_char_to_piece(c) {
                            Some(tc) => {
                                proof {
                                    if file >= 8 {
                                        assert(false);
                                    }
                                }
                                let ghost board0 = board;
                                board.set_piece(file, rank, tc.0, tc.1);
                                proof {
                                    let fr = (file as int, rank as int);
                                    acc = acc.insert(fr, tc);
                                    assert forall|x: int, y: int|
                                        in_bounds(x, y) implies #[trigger] board.cell(x, y) == (
                                    if acc.dom().contains((x, y)) {
                                        Some(placed_piece(acc[(x, y)].0, acc[(x, y)].1, x, y))
                                    } else {
                                        None
                                    }) by {
                                        if cell_index(x, y) == cell_index(file as int, rank as int) {
                                            lemma_index_inj(x, y, file as int, rank as int);
                                        } else {
                                            assert(board.cell(x, y) == board0.cell(x, y));
                                        }
                                    }
                                }
                                file = file + 1;
                            },
                            None => {
                                proof {
                                    assert(false);
                                }
                            },
                        }
                    },
                }
            }
            i = i + 1;
        }
        proof {
            assert(place_scan(s, 0, p_end as int, 0, 7, Map::empty()) == Some(acc));
            assert(placement_map(s) == acc);
        }
        let ghost bp = board;
        // active color
        let c_start = skip_spaces(fen, n, p_end);
        proof {
            assert(c_start as int == tok1_start(s));
        }
        let color_ch = fen.get_char(c_start);
        if color_ch == 'b' {
            board.active_color = Color::Black;
        } else {
            proof {
                assert(color_ch == 'w');
            }
            board.active_color = Color::White;
        }
        // castling availability
        let c_end = token_end(fen, n, c_start);
        let k_start = skip_spaces(fen, n, c_end);
        let k_end = token_end(fen, n, k_start);
        proof {
            assert(c_end as int == tok1_end(s));
            assert(k_start as int == tok2_start(s));
            assert(k_end as int == tok2_end(s));
        }
        let mut wk = false;
        let mut wq = false;
        let mut bk = false;
        let mut bq = false;
        let mut j = k_start;
        while j < k_end
            invariant
                k_start <= j <= k_end,
                k_end <= n,
                n == s.len(),
                s == fen@,
                wk == tok_has(s, k_start as int, j as int, 'K'),
                wq == tok_has(s, k_start as int, j as int, 'Q'),
                bk == tok_has(s, k_start as int, j as int, 'k'),
                bq == tok_has(s, k_start as int, j as int, 'q'),
            decreases k_end - j,
        {
            let ch = fen.get_char(j);
            proof {
                lemma_tok_has_step(s, k_start as int, j as int, 'K');
                lemma_tok_has_step(s, k_start as int, j as int, 'Q');
                lemma_tok_has_step(s, k_start as int, j as int, 'k');
                lemma_tok_has_step(s, k_start as int, j as int, 'q');
            }
            match ch {
                'K' => wk = true,
                'Q' => wq = true,
                'k' => bk = true,
                'q' => bq = true,
                _ => (),
            }
            j = j + 1;
        }
        board.white_castling = Castling { kingside: wk, queenside: wq };
        board.black_castling = Castling { kingside: bk, queenside: bq };
        // en passant target
        let e_start = skip_spaces(fen, n, k_end);
        let e_end = token_end(fen, n, e_start);
        proof {
            assert(e_start as int == tok3_start(s));
            assert(e_end as int == tok3_end(s));
        }
        let ep_token = fen.substring_char(e_start, e_end);
        match Square::try_from(ep_token) {
            Ok(sq) => {
                board.en_passant_target = Some(sq);
            },
            Err(_) => (),
        }
        // clocks
        let h_start = skip_spaces(fen, n, e_end);
        let h_end = token_end(fen, n, h_start);
        proof {
            assert(h_start as int == tok4_start(s));
            assert(h_end as int == tok4_end(s));
        }
        board.half_moves = parse_clock(fen, n, h_start, h_end);
        let f_start = skip_spaces(fen, n, h_end);
        let f_end = token_end(fen, n, f_start);
        proof {
            assert(f_start as int == tok5_start(s));
            assert(f_end as int == tok5_end(s));
        }
        board.full_moves = parse_clock(fen, n, f_start, f_end);
        proof {
            let m = placement_map(s);
            assert forall|x: int, y: int| in_bounds(x, y) implies #[trigger] board.cell(x, y)
                == (if m.dom().contains((x, y)) {
                Some(placed_piece(m[(x, y)].0, m[(x, y)].1, x, y))
            } else {
                None
            }) by {
                assert(board.cells == bp.cells);
                assert(board.cell(x, y) == bp.cell(x, y));
            }
            assert(fen_decodes_to(s, board));
        }
        board
    }
}

impl IntoFen for Board {
    open spec fn fen_encodable(self) -> bool {
        match self.en_passant_target {
            Some(e) => e.x < 8 && e.y < 8,
            None => true,
        }
    }

    open spec fn fen_text(self) -> Seq<char> {
        fen_chars(self)
    }

    #[verifier::rlimit(60)]
    fn into_fen(self) -> (r: String) {
        let mut fen = String::new();
        let mut yi: u8 = 8;
        while yi > 0
            invariant
                yi <= 8,
                fen@ + (if yi > 0 {
                    rows_from(self, yi as int - 1)
                } else {
                    Seq::<char>::empty()
                }) == rows_from(self, 7),
            decreases yi,
        {
            let y = yi - 1;
            let ghost base = fen@;
            let mut empty_squares: u8 = 0;
            let mut x: u8 = 0;
            while x < 8
                invariant
                    x <= 8,
                    empty_squares <= x,
                    y < 8,
                    y == yi - 1,
                    base + row_from(self, y as int, 0, 0) == fen@ + row_from(
                        self,
                        y as int,
                        x as int,
                        empty_squares as int,
                    ),
                decreases 8 - x,
            {
                match *self.piece(x, y) {
                    Some(p) => {
                        let ghost fen0 = fen@;
                        if empty_squares > 0 {
                            let ds: &str = match empty_squares {
                                1 => "1",
                                2 => "2",
                                3 => "3",
                                4 => "4",
                                5 => "5",
                                6 => "6",
                                7 => "7",
                                _ => "8",
                            };
                            fen.append(ds);
                        }
                        let ps = piece_to_fen_char(&p);
                        fen.append(ps.as_str());
                        proof {
                            reveal_strlit("1");
                            reveal_strlit("2");
                            reveal_strlit("3");
                            reveal_strlit("4");
                            reveal_strlit("5");
                            reveal_strlit("6");
                            reveal_strlit("7");
                            reveal_strlit("8");
                            assert(fen@ =~= fen0 + (if empty_squares > 0 {
                                seq![digit_char(empty_squares as int)]
                            } else {
                                Seq::<char>::empty()
                            }) + seq![piece_char(p)]);
                        }
                        empty_squares = 0;
                    },
                    None => {
                        empty_squares = empty_squares + 1;
                    },
                }
                x = x + 1;
            }
            if empty_squares > 0 {
                let ghost fen1 = fen@;
                let ds: &str = match empty_squares {
                    1 => "1",
                    2 => "2",
                    3 => "3",
                    4 => "4",
                    5 => "5",
                    6 => "6",
                    7 => "7",
                    _ => "8",
                };
                fen.append(ds);
                proof {
                    reveal_strlit("1");
                    reveal_strlit("2");
                    reveal_strlit("3");
                    reveal_strlit("4");
                    reveal_strlit("5");
                    reveal_strlit("6");
                    reveal_strlit("7");
                    reveal_strlit("8");
                    assert(fen@ =~= fen1 + seq![digit_char(empty_squares as int)]);
                }
            }
            if y > 0 {
                fen.append("/");
                proof {
                    reveal_strlit("/");
                }
            }
            proof {
                if y > 0 {
                    assert(rows_from(self, y as int) == row_from(self, y as int, 0, 0)
                        + seq!['/'] + rows_from(self, y as int - 1));
                    assert(fen@ + rows_from(self, y as int - 1) =~= rows_from(self, 7));
                } else {
                    assert(rows_from(self, 0) == row_from(self, 0, 0, 0));
                    assert(fen@ + Seq::<char>::empty() =~= rows_from(self, 7));
                }
            }
            yi = yi - 1;
        }
        proof {
            assert(fen@ =~= rows_from(self, 7));
        }
        match self.active_color {
            Color::Black => fen.append(" b"),
            Color::White => fen.append(" w"),
        }
        proof {
            reveal_strlit(" b");
            reveal_strlit(" w");
            assert(fen@ =~= rows_from(self, 7) + seq![' ', color_char(self.active_color)]);
        }
        let ghost fen2 = fen@;
        fen.append(" ");
        if self.white_castling.kingside {
            fen.append("K");
        }
        if self.white_castling.queenside {
            fen.append("Q");
        }
        if self.black_castling.kingside {
            fen.append("k");
        }
        if self.black_castling.queenside {
            fen.append("q");
        }
        if !self.white_castling.kingside && !self.white_castling.queenside
            && !self.black_castling.kingside && !self.black_castling.queenside {
            fen.append("-");
        }
        proof {
            reveal_strlit(" ");
            reveal_strlit("K");
            reveal_strlit("Q");
            reveal_strlit("k");
            reveal_strlit("q");
            reveal_strlit("-");
            assert(fen@ =~= fen2 + seq![' '] + castling_chars(self));
        }
        let ghost fen3 = fen@;
        match self.en_passant_target {
            Some(target) => {
                fen.append(" ");
                let ts = target.to_algebraic();
                fen.append(ts.as_str());
            },
            None => {
                fen.append(" -");
            },
        }
        proof {
            reveal_strlit(" ");
            reveal_strlit(" -");
            assert(fen@ =~= fen3 + seq![' '] + ep_chars(self));
        }
        let ghost fen4 = fen@;
        fen.append(" ");
        push_decimal(&mut fen, self.half_moves);
        let ghost fen5 = fen@;
        fen.append(" ");
        push_decimal(&mut fen, self.full_moves);
        proof {
            reveal_strlit(" ");
            assert(fen5 =~= fen4 + seq![' '] + dec_chars(self.half_moves as int));
            assert(fen@ =~= fen5 + seq![' '] + dec_chars(self.full_moves as int));
            assert(fen@ =~= fen_chars(self));
        }
        fen
    }
}



// ---------------------------------------------------------------------------
// Round trip: helper lemmas
// ---------------------------------------------------------------------------
/// A run of non-space characters ending at a space or at the end is exactly
/// what `tok_end` spans.
proof fn lemma_tok_end_val(s: Seq<char>, i: int, e: int)
    requires
        0 <= i <= e <= s.len(),
        forall|j: int| i <= j < e ==> s[j] != ' ',
        e == s.len() || s[e] == ' ',
    ensures
        tok_end(s, i) == e,
    decreases e - i,
{
    if i < e {
        lemma_tok_end_val(s, i + 1, e);
    }
}

/// Skipping spaces at a single space lands just past it.
proof fn lemma_skip_one(s: Seq<char>, i: int)
    requires
        0 <= i < s.len(),
        s[i] == ' ',
        i + 1 < s.len(),
        s[i + 1] != ' ',
    ensures
        skip_sp(s, i) == i + 1,
{
    assert(skip_sp(s, i + 1) == i + 1);
}

/// Digit characters round-trip through their values and belong to no other
/// character class used by the codec.
proof fn lemma_digit_char_class(d: int)
    requires
        0 <= d <= 9,
    ensures
        dec_digit(digit_char(d)) == Some(d),
        digit_char(d) != ' ',
        digit_char(d) != '/',
        char_piece(digit_char(d)) is None,
{
}

/// Piece letters round-trip through their piece and belong to no other
/// character class used by the codec.
proof fn lemma_piece_char_class(p: Piece)
    ensures
        char_piece(piece_char(p)) == Some((p.piece_type, p.color)),
        piece_char(p) != ' ',
        piece_char(p) != '/',
        dec_digit(piece_char(p)) is None,
{
    match (p.piece_type, p.color) {
        (PieceType::Pawn, _) => {},
        (PieceType::Knight, _) => {},
        (PieceType::Bishop, _) => {},
        (PieceType::Rook, _) => {},
        (PieceType::Queen, _) => {},
        (PieceType::King, _) => {},
    }
}

/// Reading one more digit extends the value read so far by one decimal
/// place.
proof fn lemma_parse_num_push(s: Seq<char>, i: int, e: int, acc: int)
    requires
        0 <= i <= e < s.len(),
    ensures
        parse_num(s, i, e + 1, acc) == (match parse_num(s, i, e, acc) {
            Some(v) => match dec_digit(s[e]) {
                Some(d) => if v * 10 + d > u32::MAX as int {
                    None
                } else {
                    Some(v * 10 + d)
                },
                None => None,
            },
            None => None,
        }),
    decreases e - i,
{
    reveal_with_fuel(parse_num, 3);
    if i < e {
        match dec_digit(s[i]) {
            Some(d) => {
                if acc * 10 + d <= u32::MAX as int {
                    lemma_parse_num_push(s, i + 1, e, acc * 10 + d);
                }
            },
            None => {},
        }
    }
}

/// The decimal rendering of `n` consists of digits, and reading it back
/// yields `n`.
proof fn lemma_dec_chars_parse(s: Seq<char>, i: int, n: int)
    requires
        0 <= n <= u32::MAX as int,
        0 <= i,
        i + dec_chars(n).len() <= s.len(),
        s.subrange(i, i + dec_chars(n).len()) == dec_chars(n),
    ensures
        parse_num(s, i, i + dec_chars(n).len(), 0) == Some(n),
        forall|j: int| i <= j < i + dec_chars(n).len() ==> s[j] != ' ',
    decreases n,
{
    reveal_with_fuel(parse_num, 2);
    let d = dec_chars(n);
    if n < 10 {
        lemma_digit_char_class(n);
        assert(s[i] == d[0]);
    } else {
        let head = dec_chars(n / 10);
        assert(d == head.push(digit_char(n % 10)));
        assert(s.subrange(i, i + head.len()) =~= head) by {
            assert forall|k: int| 0 <= k < head.len() implies s.subrange(
                i,
                i + head.len(),
            )[k] == head[k] by {
                assert(s[i + k] == d[k]);
            }
        }
        lemma_dec_chars_parse(s, i, n / 10);
        lemma_digit_char_class(n % 10);
        assert(s[i + d.len() - 1] == d[d.len() - 1]);
        lemma_parse_num_push(s, i, i + d.len() - 1, 0);
        assert((n / 10) * 10 + n % 10 == n);
    }
}

/// Every character of a rank's FEN text is a digit or a piece letter; in
/// particular none is a space or a slash.
proof fn lemma_row_chars(b: Board, y: int, x: int, pending: int)
    requires
        0 <= pending,
        x <= 8,
        pending + (8 - x) <= 8,
    ensures
        forall|j: int|
            0 <= j < row_from(b, y, x, pending).len() ==> (#[trigger] row_from(
                b,
                y,
                x,
                pending,
            )[j]) != ' ' && row_from(b, y, x, pending)[j] != '/',
    decreases 8 - x,
{
    reveal_with_fuel(place_scan, 4);
    let r = row_from(b, y, x, pending);
    if x >= 8 {
        if pending > 0 {
            lemma_digit_char_class(pending);
        }
    } else {
        match b.cell(x, y) {
            Some(p) => {
                lemma_row_chars(b, y, x + 1, 0);
                lemma_piece_char_class(p);
                if pending > 0 {
                    lemma_digit_char_class(pending);
                }
                let digits = if pending > 0 {
                    seq![digit_char(pending)]
                } else {
                    Seq::<char>::empty()
                };
                let rest = row_from(b, y, x + 1, 0);
                assert(r == digits + seq![piece_char(p)] + rest);
                assert forall|j: int| 0 <= j < r.len() implies (#[trigger] r[j]) != ' ' && r[j]
                    != '/' by {
                    if j < digits.len() {
                        assert(r[j] == digit_char(pending));
                    } else if j == digits.len() {
                        assert(r[j] == piece_char(p));
                    } else {
                        assert(r[j] == rest[j - digits.len() - 1]);
                    }
                }
            },
            None => {
                lemma_row_chars(b, y, x + 1, pending + 1);
                assert(r == row_from(b, y, x + 1, pending + 1));
                assert forall|j: int| 0 <= j < r.len() implies (#[trigger] r[j]) != ' ' && r[j]
                    != '/' by {
                    assert(r[j] == row_from(b, y, x + 1, pending + 1)[j]);
                }
            },
        }
    }
}

/// Every character of the placement field is a digit, a piece letter, or a
/// slash; in particular none is a space.
proof fn lemma_rows_chars(b: Board, y: int)
    requires
        0 <= y <= 7,
    ensures
        forall|j: int|
            0 <= j < rows_from(b, y).len() ==> (#[trigger] rows_from(b, y)[j]) != ' ',
    decreases y,
{
    lemma_row_chars(b, y, 0, 0);
    if y > 0 {
        lemma_rows_chars(b, y - 1);
        let row = row_from(b, y, 0, 0);
        let rest = rows_from(b, y - 1);
        assert forall|j: int| 0 <= j < rows_from(b, y).len() implies (#[trigger] rows_from(
            b,
            y,
        )[j]) != ' ' by {
            if j < row.len() {
                assert(rows_from(b, y)[j] == row[j]);
            } else if j == row.len() {
                assert(rows_from(b, y)[j] == '/');
            } else {
                assert(rows_from(b, y)[j] == rest[j - row.len() - 1]);
            }
        }
    }
}



/// What the cells of one rank from file `x` on contribute to a placement
/// map.
spec fn row_map(b: Board, y: int, x: int, acc: Map<(int, int), (PieceType, Color)>) -> Map<
    (int, int),
    (PieceType, Color),
>
    decreases 8 - x,
{
    if x >= 8 {
        acc
    } else {
        match b.cell(x, y) {
            Some(p) => row_map(b, y, x + 1, acc.insert((x, y), (p.piece_type, p.color))),
            None => row_map(b, y, x + 1, acc),
        }
    }
}

/// What the cells of the ranks from `y` down to 0 contribute to a placement
/// map.
spec fn rows_map(b: Board, y: int, acc: Map<(int, int), (PieceType, Color)>) -> Map<
    (int, int),
    (PieceType, Color),
>
    decreases y + 1,
{
    if y < 0 {
        acc
    } else {
        rows_map(b, y - 1, row_map(b, y, 0, acc))
    }
}

/// Scanning the FEN text of one rank advances the file to 8 and reads back
/// exactly the pieces of that rank.
proof fn lemma_row_scan(
    b: Board,
    y: int,
    s: Seq<char>,
    i: int,
    end: int,
    x: int,
    pending: int,
    acc: Map<(int, int), (PieceType, Color)>,
)
    requires
        0 <= y <= 7,
        0 <= pending <= x <= 8,
        forall|k: int| x - pending <= k < x ==> b.cell(k, y) is None,
        0 <= i,
        i + row_from(b, y, x, pending).len() <= end <= s.len(),
        s.subrange(i, i + row_from(b, y, x, pending).len()) == row_from(b, y, x, pending),
    ensures
        place_scan(s, i, end, x - pending, y, acc) == place_scan(
            s,
            i + row_from(b, y, x, pending).len(),
            end,
            8,
            y,
            row_map(b, y, x, acc),
        ),
    decreases 8 - x,
{
    reveal_with_fuel(place_scan, 4);
    let r = row_from(b, y, x, pending);
    if x >= 8 {
        if pending > 0 {
            lemma_digit_char_class(pending);
            assert(s.subrange(i, i + r.len())[0] == r[0]);
            assert(s[i] == r[0]);
        }
    } else {
        match b.cell(x, y) {
            Some(p) => {
                lemma_piece_char_class(p);
                let digits = if pending > 0 {
                    seq![digit_char(pending)]
                } else {
                    Seq::<char>::empty()
                };
                let rest = row_from(b, y, x + 1, 0);
                assert(r == digits + seq![piece_char(p)] + rest);
                let dl = digits.len() as int;
                if pending > 0 {
                    lemma_digit_char_class(pending);
                    assert(s.subrange(i, i + r.len())[0] == r[0]);
                    assert(r[0] == digit_char(pending));
                    assert(s[i] == digit_char(pending));
                }
                assert(s.subrange(i, i + r.len())[dl] == r[dl]);
                assert(r[dl] == piece_char(p));
                assert(s[i + dl] == piece_char(p));
                assert(s.subrange(i + dl + 1, i + dl + 1 + rest.len()) =~= rest) by {
                    assert forall|j: int|
                        0 <= j < rest.len() implies s.subrange(
                        i + dl + 1,
                        i + dl + 1 + rest.len(),
                    )[j] == rest[j] by {
                        assert(s.subrange(i, i + r.len())[dl + 1 + j] == r[dl + 1 + j]);
                        assert(s[i + dl + 1 + j] == r[dl + 1 + j]);
                        assert(r[dl + 1 + j] == rest[j]);
                    }
                }
                lemma_row_scan(
                    b,
                    y,
                    s,
                    i + dl + 1,
                    end,
                    x + 1,
                    0,
                    acc.insert((x, y), (p.piece_type, p.color)),
                );
            },
            None => {
                lemma_row_scan(b, y, s, i, end, x + 1, pending + 1, acc);
            },
        }
    }
}

/// Scanning the FEN text of the ranks from `y` down to 0 succeeds and reads
/// back exactly the pieces of those ranks.
proof fn lemma_rows_scan(
    b: Board,
    y: int,
    s: Seq<char>,
    i: int,
    acc: Map<(int, int), (PieceType, Color)>,
)
    requires
        0 <= y <= 7,
        0 <= i,
        i + rows_from(b, y).len() <= s.len(),
        s.subrange(i, i + rows_from(b, y).len()) == rows_from(b, y),
    ensures
        place_scan(s, i, i + rows_from(b, y).len(), 0, y, acc) == Some(rows_map(b, y, acc)),
    decreases y,
{
    let rs = rows_from(b, y);
    let row = row_from(b, y, 0, 0);
    let end = i + rs.len();
    assert forall|j: int| 0 <= j < rs.len() implies s[i + j] == rs[j] by {
        assert(s.subrange(i, i + rs.len())[j] == rs[j]);
    }
    if y == 0 {
        assert(rs == row);
        assert(s.subrange(i, i + row.len()) == row);
        lemma_row_scan(b, 0, s, i, end, 0, 0, acc);
        assert(place_scan(s, end, end, 8, 0, row_map(b, 0, 0, acc)) == Some(
            row_map(b, 0, 0, acc),
        ));
        assert(rows_map(b, 0, acc) == rows_map(b, -1, row_map(b, 0, 0, acc)));
    } else {
        let rest = rows_from(b, y - 1);
        assert(rs == row + seq!['/'] + rest);
        assert(s.subrange(i, i + row.len()) =~= row) by {
            assert forall|j: int|
                0 <= j < row.len() implies s.subrange(i, i + row.len())[j] == row[j] by {
                assert(s[i + j] == rs[j]);
                assert(rs[j] == row[j]);
            }
        }
        lemma_row_scan(b, y, s, i, end, 0, 0, acc);
        assert(s[i + row.len()] == rs[row.len() as int]);
        assert(rs[row.len() as int] == '/');
        assert(place_scan(s, i + row.len(), end, 8, y, row_map(b, y, 0, acc)) == place_scan(
            s,
            i + row.len() + 1,
            end,
            0,
            y - 1,
            row_map(b, y, 0, acc),
        ));
        assert(s.subrange(i + row.len() + 1, i + row.len() + 1 + rest.len()) =~= rest) by {
            assert forall|j: int|
                0 <= j < rest.len() implies s.subrange(
                i + row.len() + 1,
                i + row.len() + 1 + rest.len(),
            )[j] == rest[j] by {
                assert(s[i + row.len() + 1 + j] == rs[row.len() + 1 + j]);
                assert(rs[row.len() + 1 + j] == rest[j]);
            }
        }
        lemma_rows_scan(b, y - 1, s, i + row.len() + 1, row_map(b, y, 0, acc));
    }
}

/// What `row_map` holds: the entries of `acc`, overridden by the occupied
/// cells of rank `y` from file `x` on.
proof fn lemma_row_map_content(b: Board, y: int, x: int, acc: Map<(int, int), (PieceType, Color)>)
    requires
        0 <= x <= 8,
    ensures
        forall|k: (int, int)|
            #[trigger] row_map(b, y, x, acc).dom().contains(k) <==> (acc.dom().contains(k) || (
            k.1 == y && x <= k.0 < 8 && b.cell(k.0, y) is Some)),
        forall|k: (int, int)|
            #[trigger] row_map(b, y, x, acc).dom().contains(k) ==> row_map(b, y, x, acc)[k] == (
            if k.1 == y && x <= k.0 < 8 && b.cell(k.0, y) is Some {
                match b.cell(k.0, y) {
                    Some(p) => (p.piece_type, p.color),
                    None => acc[k],
                }
            } else {
                acc[k]
            }),
    decreases 8 - x,
{
    let rm = row_map(b, y, x, acc);
    if x < 8 {
        match b.cell(x, y) {
            Some(p) => {
                let acc2 = acc.insert((x, y), (p.piece_type, p.color));
                lemma_row_map_content(b, y, x + 1, acc2);
                assert(rm == row_map(b, y, x + 1, acc2));
                assert forall|k: (int, int)|
                    #[trigger] rm.dom().contains(k) <==> (acc.dom().contains(k) || (k.1 == y && x
                    <= k.0 < 8 && b.cell(k.0, y) is Some)) by {
                    assert(rm.dom().contains(k) == row_map(b, y, x + 1, acc2).dom().contains(k));
                }
                assert forall|k: (int, int)| #[trigger] rm.dom().contains(k) implies rm[k] == (if k.1
                    == y && x <= k.0 < 8 && b.cell(k.0, y) is Some {
                    match b.cell(k.0, y) {
                        Some(q) => (q.piece_type, q.color),
                        None => acc[k],
                    }
                } else {
                    acc[k]
                }) by {
                    assert(rm.dom().contains(k) == row_map(b, y, x + 1, acc2).dom().contains(k));
                    assert(rm[k] == row_map(b, y, x + 1, acc2)[k]);
                }
            },
            None => {
                lemma_row_map_content(b, y, x + 1, acc);
                assert(rm == row_map(b, y, x + 1, acc));
                assert forall|k: (int, int)|
                    #[trigger] rm.dom().contains(k) <==> (acc.dom().contains(k) || (k.1 == y && x
                    <= k.0 < 8 && b.cell(k.0, y) is Some)) by {
                    assert(rm.dom().contains(k) == row_map(b, y, x + 1, acc).dom().contains(k));
                }
                assert forall|k: (int, int)| #[trigger] rm.dom().contains(k) implies rm[k] == (if k.1
                    == y && x <= k.0 < 8 && b.cell(k.0, y) is Some {
                    match b.cell(k.0, y) {
                        Some(q) => (q.piece_type, q.color),
                        None => acc[k],
                    }
                } else {
                    acc[k]
                }) by {
                    assert(rm.dom().contains(k) == row_map(b, y, x + 1, acc).dom().contains(k));
                    assert(rm[k] == row_map(b, y, x + 1, acc)[k]);
                }
            },
        }
    }
}

/// What `rows_map` holds: the entries of `acc`, overridden by the occupied
/// cells of the ranks from `y` down to 0.
proof fn lemma_rows_map_content(b: Board, y: int, acc: Map<(int, int), (PieceType, Color)>)
    requires
        y <= 7,
    ensures
        forall|k: (int, int)|
            #[trigger] rows_map(b, y, acc).dom().contains(k) <==> (acc.dom().contains(k) || (0
                <= k.1 <= y && 0 <= k.0 < 8 && b.cell(k.0, k.1) is Some)),
        forall|k: (int, int)|
            #[trigger] rows_map(b, y, acc).dom().contains(k) ==> rows_map(b, y, acc)[k] == (if 0
                <= k.1 <= y && 0 <= k.0 < 8 && b.cell(k.0, k.1) is Some {
                match b.cell(k.0, k.1) {
                    Some(p) => (p.piece_type, p.color),
                    None => acc[k],
                }
            } else {
                acc[k]
            }),
    decreases y + 1,
{
    let rm = rows_map(b, y, acc);
    if y >= 0 {
        let acc2 = row_map(b, y, 0, acc);
        lemma_row_map_content(b, y, 0, acc);
        lemma_rows_map_content(b, y - 1, acc2);
        assert(rm == rows_map(b, y - 1, acc2));
        assert forall|k: (int, int)|
            #[trigger] rm.dom().contains(k) <==> (acc.dom().contains(k) || (0 <= k.1 <= y && 0
            <= k.0 < 8 && b.cell(k.0, k.1) is Some)) by {
            assert(rm.dom().contains(k) == rows_map(b, y - 1, acc2).dom().contains(k));
            assert(acc2.dom().contains(k) == row_map(b, y, 0, acc).dom().contains(k));
        }
        assert forall|k: (int, int)| #[trigger] rm.dom().contains(k) implies rm[k] == (if 0 <= k.1
            <= y && 0 <= k.0 < 8 && b.cell(k.0, k.1) is Some {
            match b.cell(k.0, k.1) {
                Some(q) => (q.piece_type, q.color),
                None => acc[k],
            }
        } else {
            acc[k]
        }) by {
            assert(rm.dom().contains(k) == rows_map(b, y - 1, acc2).dom().contains(k));
            assert(acc2.dom().contains(k) == row_map(b, y, 0, acc).dom().contains(k));
            if rows_map(b, y - 1, acc2).dom().contains(k) {
                assert(rm[k] == rows_map(b, y - 1, acc2)[k]);
            }
            if acc2.dom().contains(k) {
                assert(acc2[k] == row_map(b, y, 0, acc)[k]);
            }
        }
    }
}



/// The castling field never holds a space, and holds each of the four
/// right letters exactly when the corresponding right is set.
proof fn lemma_castling_chars(b: Board)
    ensures
        1 <= castling_chars(b).len() <= 4,
        forall|j: int|
            0 <= j < castling_chars(b).len() ==> (#[trigger] castling_chars(b)[j]) != ' ',
        (exists|j: int| 0 <= j < castling_chars(b).len() && castling_chars(b)[j] == 'K')
            == b.white_castling.kingside,
        (exists|j: int| 0 <= j < castling_chars(b).len() && castling_chars(b)[j] == 'Q')
            == b.white_castling.queenside,
        (exists|j: int| 0 <= j < castling_chars(b).len() && castling_chars(b)[j] == 'k')
            == b.black_castling.kingside,
        (exists|j: int| 0 <= j < castling_chars(b).len() && castling_chars(b)[j] == 'q')
            == b.black_castling.queenside,
{
    let ca = castling_chars(b);
    let wk = b.white_castling.kingside;
    let wq = b.white_castling.queenside;
    let bk = b.black_castling.kingside;
    let bq = b.black_castling.queenside;
    assert forall|j: int| 0 <= j < ca.len() implies (#[trigger] ca[j]) == 'K' || ca[j] == 'Q'
        || ca[j] == 'k' || ca[j] == 'q' || ca[j] == '-' by {}
    if wk {
        assert(ca[0] == 'K');
    } else {
        assert(forall|j: int| 0 <= j < ca.len() ==> (#[trigger] ca[j]) != 'K');
    }
    if wq {
        let j = if wk { 1int } else { 0int };
        assert(ca[j] == 'Q');
    } else {
        assert(forall|j: int| 0 <= j < ca.len() ==> (#[trigger] ca[j]) != 'Q');
    }
    if bk {
        let j = (if wk { 1int } else { 0int }) + (if wq { 1int } else { 0int });
        assert(ca[j] == 'k');
    } else {
        assert(forall|j: int| 0 <= j < ca.len() ==> (#[trigger] ca[j]) != 'k');
    }
    if bq {
        let j = (if wk { 1int } else { 0int }) + (if wq { 1int } else { 0int }) + (if bk {
            1int
        } else {
            0int
        });
        assert(ca[j] == 'q');
    } else {
        assert(forall|j: int| 0 <= j < ca.len() ==> (#[trigger] ca[j]) != 'q');
    }
}

/// The en-passant field never holds a space, and parsing it back as a
/// square yields exactly the recorded target.
proof fn lemma_ep_chars(b: Board)
    requires
        b.fen_encodable(),
    ensures
        1 <= ep_chars(b).len() <= 2,
        forall|j: int| 0 <= j < ep_chars(b).len() ==> (#[trigger] ep_chars(b)[j]) != ' ',
        parse_square(ep_chars(b)) == b.en_passant_target,
{
    match b.en_passant_target {
        Some(e) => {
            let fc = crate::square::file_char(e.x as int);
            let rc = crate::square::rank_char(e.y as int);
            assert(ep_chars(b) == seq![fc, rc]);
            assert(crate::square::file_of_char(fc) == Some(e.x));
            assert(crate::square::rank_of_char(rc) == Some(e.y));
            assert(crate::square::rank_of_char(fc) is None);
            assert(crate::square::file_of_char(rc) is None);
            assert(crate::square::square_after_char(Square { x: 0, y: 0 }, fc) == Some(
                Square { x: e.x, y: 0 },
            ));
            assert(crate::square::square_after_char(Square { x: e.x, y: 0 }, rc) == Some(e));
        },
        None => {
            assert(ep_chars(b) == seq!['-']);
        },
    }
}

/// A character occurs in a stretch of the text exactly when it occurs in
/// the segment that stretch holds.
proof fn lemma_tok_has_seg(s: Seq<char>, a: int, seg: Seq<char>, c: char)
    requires
        0 <= a,
        a + seg.len() <= s.len(),
        s.subrange(a, a + seg.len()) == seg,
    ensures
        tok_has(s, a, a + seg.len(), c) == (exists|j: int| 0 <= j < seg.len() && seg[j] == c),
{
    if exists|j: int| 0 <= j < seg.len() && seg[j] == c {
        let j = choose|j: int| 0 <= j < seg.len() && seg[j] == c;
        assert(s.subrange(a, a + seg.len())[j] == seg[j]);
        assert(a <= a + j < a + seg.len() && s[a + j] == c);
    }
    if tok_has(s, a, a + seg.len(), c) {
        let w = choose|w: int| a <= w < a + seg.len() && s[w] == c;
        assert(s.subrange(a, a + seg.len())[w - a] == s[w]);
        assert(0 <= w - a < seg.len() && seg[w - a] == c);
    }
}

/// Where each field of an encoded board's FEN text sits, and what reading
/// each field back yields.
#[verifier::rlimit(100)]
proof fn lemma_fen_structure(b: Board)
    requires
        b.fen_encodable(),
    ensures
        fen_ok(fen_chars(b)),
        ({
            let s = fen_chars(b);
            &&& s[tok1_start(s)] == color_char(b.active_color)
            &&& tok_has(s, tok2_start(s), tok2_end(s), 'K') == b.white_castling.kingside
            &&& tok_has(s, tok2_start(s), tok2_end(s), 'Q') == b.white_castling.queenside
            &&& tok_has(s, tok2_start(s), tok2_end(s), 'k') == b.black_castling.kingside
            &&& tok_has(s, tok2_start(s), tok2_end(s), 'q') == b.black_castling.queenside
            &&& parse_square(s.subrange(tok3_start(s), tok3_end(s))) == b.en_passant_target
            &&& parse_num(s, tok4_start(s), tok4_end(s), 0) == Some(b.half_moves as int)
            &&& parse_num(s, tok5_start(s), tok5_end(s), 0) == Some(b.full_moves as int)
            &&& place_scan(s, 0, tok_end(s, 0), 0, 7, Map::empty()) == Some(
                rows_map(b, 7, Map::empty()),
            )
        }),
{
    let s = fen_chars(b);
    let pl = rows_from(b, 7);
    let cc = seq![' ', color_char(b.active_color)];
    let sp = seq![' '];
    let ca = castling_chars(b);
    let ep = ep_chars(b);
    let hm = dec_chars(b.half_moves as int);
    let fm = dec_chars(b.full_moves as int);
    let s1 = pl + cc;
    let s2 = s1 + sp;
    let s3 = s2 + ca;
    let s4 = s3 + sp;
    let s5 = s4 + ep;
    let s6 = s5 + sp;
    let s7 = s6 + hm;
    let s8 = s7 + sp;
    let s9 = s8 + fm;
    assert(s == s9);
    lemma_rows_chars(b, 7);
    lemma_castling_chars(b);
    lemma_ep_chars(b);
    assert(hm.len() >= 1 && fm.len() >= 1);
    let xl0 = pl.len() as int;
    let a2 = xl0 + 3;
    let e2 = a2 + ca.len() as int;
    let a3 = e2 + 1;
    let e3 = a3 + ep.len() as int;
    let a4 = e3 + 1;
    let e4 = a4 + hm.len() as int;
    let a5 = e4 + 1;
    let e5 = a5 + fm.len() as int;
    assert(s.len() == e5);
    // What stands at each position of the text.
    assert forall|j: int| 0 <= j < xl0 implies s[j] == pl[j] by {
        assert(s9[j] == s8[j]);
        assert(s8[j] == s7[j]);
        assert(s7[j] == s6[j]);
        assert(s6[j] == s5[j]);
        assert(s5[j] == s4[j]);
        assert(s4[j] == s3[j]);
        assert(s3[j] == s2[j]);
        assert(s2[j] == s1[j]);
        assert(s1[j] == pl[j]);
    }
    assert forall|j: int| xl0 <= j < xl0 + 2 implies s[j] == cc[j - xl0] by {
        assert(s9[j] == s8[j]);
        assert(s8[j] == s7[j]);
        assert(s7[j] == s6[j]);
        assert(s6[j] == s5[j]);
        assert(s5[j] == s4[j]);
        assert(s4[j] == s3[j]);
        assert(s3[j] == s2[j]);
        assert(s2[j] == s1[j]);
        assert(s1[j] == cc[j - xl0]);
    }
    assert(s[xl0 + 2] == ' ') by {
        assert(s9[xl0 + 2] == s8[xl0 + 2]);
        assert(s8[xl0 + 2] == s7[xl0 + 2]);
        assert(s7[xl0 + 2] == s6[xl0 + 2]);
        assert(s6[xl0 + 2] == s5[xl0 + 2]);
        assert(s5[xl0 + 2] == s4[xl0 + 2]);
        assert(s4[xl0 + 2] == s3[xl0 + 2]);
        assert(s3[xl0 + 2] == s2[xl0 + 2]);
        assert(s2[xl0 + 2] == sp[0]);
    }
    assert forall|j: int| a2 <= j < e2 implies s[j] == ca[j - a2] by {
        assert(s9[j] == s8[j]);
        assert(s8[j] == s7[j]);
        assert(s7[j] == s6[j]);
        assert(s6[j] == s5[j]);
        assert(s5[j] == s4[j]);
        assert(s4[j] == s3[j]);
        assert(s3[j] == ca[j - a2]);
    }
    assert(s[e2] == ' ') by {
        assert(s9[e2] == s8[e2]);
        assert(s8[e2] == s7[e2]);
        assert(s7[e2] == s6[e2]);
        assert(s6[e2] == s5[e2]);
        assert(s5[e2] == s4[e2]);
        assert(s4[e2] == sp[0]);
    }
    assert forall|j: int| a3 <= j < e3 implies s[j] == ep[j - a3] by {
        assert(s9[j] == s8[j]);
        assert(s8[j] == s7[j]);
        assert(s7[j] == s6[j]);
        assert(s6[j] == s5[j]);
        assert(s5[j] == ep[j - a3]);
    }
    assert(s[e3] == ' ') by {
        assert(s9[e3] == s8[e3]);
        assert(s8[e3] == s7[e3]);
        assert(s7[e3] == s6[e3]);
        assert(s6[e3] == sp[0]);
    }
    assert forall|j: int| a4 <= j < e4 implies s[j] == hm[j - a4] by {
        assert(s9[j] == s8[j]);
        assert(s8[j] == s7[j]);
        assert(s7[j] == hm[j - a4]);
    }
    assert(s[e4] == ' ') by {
        assert(s9[e4] == s8[e4]);
        assert(s8[e4] == sp[0]);
    }
    assert forall|j: int| a5 <= j < e5 implies s[j] == fm[j - a5] by {
        assert(s9[j] == fm[j - a5]);
    }
    // Token boundaries.
    assert(color_char(b.active_color) != ' ');
    lemma_tok_end_val(s, 0, xl0);
    lemma_skip_one(s, xl0);
    lemma_tok_end_val(s, xl0 + 1, xl0 + 2);
    lemma_skip_one(s, xl0 + 2);
    assert(tok1_start(s) == xl0 + 1);
    assert(tok1_end(s) == xl0 + 2);
    assert(tok2_start(s) == a2);
    lemma_tok_end_val(s, a2, e2);
    assert(tok2_end(s) == e2);
    lemma_skip_one(s, e2);
    assert(tok3_start(s) == a3);
    lemma_tok_end_val(s, a3, e3);
    assert(tok3_end(s) == e3);
    // The clock digits and their values.
    assert(s.subrange(a4, e4) =~= hm) by {
        assert forall|j: int| 0 <= j < hm.len() implies s.subrange(a4, e4)[j] == hm[j] by {
            assert(s[a4 + j] == hm[j]);
        }
    }
    lemma_dec_chars_parse(s, a4, b.half_moves as int);
    assert(s.subrange(a5, e5) =~= fm) by {
        assert forall|j: int| 0 <= j < fm.len() implies s.subrange(a5, e5)[j] == fm[j] by {
            assert(s[a5 + j] == fm[j]);
        }
    }
    lemma_dec_chars_parse(s, a5, b.full_moves as int);
    lemma_skip_one(s, e3);
    assert(tok4_start(s) == a4);
    lemma_tok_end_val(s, a4, e4);
    assert(tok4_end(s) == e4);
    lemma_skip_one(s, e4);
    assert(tok5_start(s) == a5);
    lemma_tok_end_val(s, a5, e5);
    assert(tok5_end(s) == e5);
    // The placement scan.
    assert(s.subrange(0, xl0) =~= pl) by {
        assert forall|j: int| 0 <= j < pl.len() implies s.subrange(0, xl0)[j] == pl[j] by {
            assert(s[0 + j] == pl[j]);
        }
    }
    lemma_rows_scan(b, 7, s, 0, Map::empty());
    // The color letter.
    assert(s[xl0 + 1] == cc[1]);
    // The castling flags.
    assert(s.subrange(a2, e2) =~= ca) by {
        assert forall|j: int| 0 <= j < ca.len() implies s.subrange(a2, e2)[j] == ca[j] by {
            assert(s[a2 + j] == ca[j]);
        }
    }
    lemma_tok_has_seg(s, a2, ca, 'K');
    lemma_tok_has_seg(s, a2, ca, 'Q');
    lemma_tok_has_seg(s, a2, ca, 'k');
    lemma_tok_has_seg(s, a2, ca, 'q');
    // The en-passant field.
    assert(s.subrange(a3, e3) =~= ep) by {
        assert forall|j: int| 0 <= j < ep.len() implies s.subrange(a3, e3)[j] == ep[j] by {
            assert(s[a3 + j] == ep[j]);
        }
    }
}

/// Whether two boards agree on everything the FEN text records: occupancy,
/// piece type and color of every cell, and all five metadata fields.
pub open spec fn fen_equiv(a: Board, b: Board) -> bool {
    &&& forall|x: int, y: int|
        in_bounds(x, y) ==> match (#[trigger] a.cell(x, y), b.cell(x, y)) {
            (Some(p), Some(q)) => p.piece_type == q.piece_type && p.color == q.color,
            (None, None) => true,
            _ => false,
        }
    &&& a.active_color == b.active_color
    &&& a.white_castling == b.white_castling
    &&& a.black_castling == b.black_castling
    &&& a.en_passant_target == b.en_passant_target
    &&& a.half_moves == b.half_moves
    &&& a.full_moves == b.full_moves
}

/// Law: the FEN text of any renderable board is well-formed for this
/// codec.
pub proof fn lemma_encoded_fen_parses(b: Board)
    requires
        b.fen_encodable(),
    ensures
        fen_ok(fen_chars(b)),
{
    lemma_fen_structure(b);
}

/// Law: decoding the FEN text produced for a board yields a board that
/// agrees with it on every cell's occupancy, piece type and color, and on
/// the active color, both castling rights, the en-passant target, and both
/// move counters.
pub proof fn lemma_fen_round_trip(b: Board, r: Board)
    requires
        b.fen_encodable(),
        fen_decodes_to(fen_chars(b), r),
    ensures
        fen_equiv(r, b),
{
    let s = fen_chars(b);
    lemma_fen_structure(b);
    lemma_rows_map_content(b, 7, Map::empty());
    let m = placement_map(s);
    assert(m == rows_map(b, 7, Map::empty()));
    assert forall|x: int, y: int|
        in_bounds(x, y) implies match (#[trigger] r.cell(x, y), b.cell(x, y)) {
        (Some(p), Some(q)) => p.piece_type == q.piece_type && p.color == q.color,
        (None, None) => true,
        _ => false,
    } by {
        assert(m.dom().contains((x, y)) == rows_map(b, 7, Map::empty()).dom().contains((x, y)));
        if m.dom().contains((x, y)) {
            assert(m[(x, y)] == rows_map(b, 7, Map::empty())[(x, y)]);
        }
    }
    assert(r.active_color == b.active_color) by {
        if b.active_color == Color::Black {
            assert(s[tok1_start(s)] == 'b');
        } else {
            assert(s[tok1_start(s)] == 'w');
        }
    }
}




} // verus!
