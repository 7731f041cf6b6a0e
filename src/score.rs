//! The piece-square evaluator: a position's score from one side's view.
use crate::board::{after, apply, color_of, color_on, piece_of, piece_on, playable, white_of, white_to_move, Mv};
use vstd::wrapping::i16_specs;
use vstd::prelude::*;

verus! {

/// The largest magnitude of an entry of the piece-square table.
pub const MAX_ENTRY: i16 = 50;

/// Scores positions with piece-square tables. `values[piece][colour][square]`
/// holds the worth of a piece of that colour on that square; the pieces are
/// pawn, knight, bishop, rook, queen, king and (unused) end-game king, the
/// colours white then black.
#[derive(Clone, Copy)]
pub struct Calc {
    values: [[[i16; 64]; 2]; 7],
}

/// Every entry of a row lies within `-MAX_ENTRY..=MAX_ENTRY`.
pub open spec fn row_bounded(row: [i16; 64]) -> bool {
    forall|s: int| 0 <= s < 64 ==> -MAX_ENTRY <= #[trigger] row@[s] <= MAX_ENTRY
}

/// White's standard piece-square table for piece `p` (pawn, knight,
/// bishop, rook, queen, king, end-game king), indexed by square (a1 = 0).
pub open spec fn white_row(p: int) -> Seq<int> {
    if p == 0 {
        seq![
        0, 0, 0, 0, 0, 0, 0, 0,
        5, 10, 10, -20, -20, 10, 10, 5,
        5, -5, -10, 0, 0, -10, -5, 5,
        0, 0, 0, 20, 20, 0, 0, 0,
        5, 5, 10, 25, 25, 10, 5, 5,
        10, 10, 20, 30, 30, 20, 10, 10,
        50, 50, 50, 50, 50, 50, 50, 50,
        0, 0, 0, 0, 0, 0, 0, 0
        ]
    } else if p == 1 {
        seq![
        -50, -40, -30, -30, -30, -30, -40, -50,
        -40, -20, 0, 5, 5, 0, -20, -40,
        -30, 5, 10, 15, 15, 10, 5, -30,
        -30, 0, 15, 20, 20, 15, 0, -30,
        -30, 5, 15, 20, 20, 15, 5, -30,
        -30, 0, 10, 15, 15, 10, 0, -30,
        -40, -20, 0, 0, 0, 0, -20, -40,
        -50, -40, -30, -30, -30, -30, -40, -50
        ]
    } else if p == 2 {
        seq![
        -20, -10, -10, -10, -10, -10, -10, -20,
        -10, 5, 0, 0, 0, 0, 5, -10,
        -10, 10, 10, 10, 10, 10, 10, -10,
        -10, 0, 10, 10, 10, 10, 0, -10,
        -10, 5, 5, 10, 10, 5, 5, -10,
        -10, 0, 5, 10, 10, 5, 0, -10,
        -10, 0, 0, 0, 0, 0, 0, -10,
        -20, -10, -10, -10, -10, -10, -10, -20
        ]
    } else if p == 3 {
        seq![
        0, 0, 0, 5, 5, 0, 0, 0,
        -5, 0, 0, 0, 0, 0, 0, -5,
        -5, 0, 0, 0, 0, 0, 0, -5,
        -5, 0, 0, 0, 0, 0, 0, -5,
        -5, 0, 0, 0, 0, 0, 0, -5,
        -5, 0, 0, 0, 0, 0, 0, -5,
        5, 10, 10, 10, 10, 10, 10, 5,
        0, 0, 0, 0, 0, 0, 0, 0
        ]
    } else if p == 4 {
        seq![
        -20, -10, -10, -5, -5, -10, -10, -20,
        -10, 0, 5, 0, 0, 0, 0, -10,
        -10, 5, 5, 5, 5, 5, 0, -10,
        0, 0, 5, 5, 5, 5, 0, -5,
        -5, 0, 5, 5, 5, 5, 0, -5,
        -10, 0, 5, 5, 5, 5, 0, -10,
        -10, 0, 0, 0, 0, 0, 0, -10,
        -20, -10, -10, -5, -5, -10, -10, -20
        ]
    } else if p == 5 {
        seq![
        20, 30, 10, 0, 0, 10, 30, 20,
        20, 20, 0, 0, 0, 0, 20, 20,
        -10, -20, -20, -20, -20, -20, -20, -10,
        -20, -30, -30, -40, -40, -30, -30, -20,
        -30, -40, -40, -50, -50, -40, -40, -30,
        -30, -40, -40, -50, -50, -40, -40, -30,
        -30, -40, -40, -50, -50, -40, -40, -30,
        -30, -40, -40, -50, -50, -40, -40, -30
        ]
    } else {
        seq![
        -50, -30, -30, -30, -30, -30, -30, -50,
        -30, -30, 0, 0, 0, 0, -30, -30,
        -30, -10, 20, 30, 30, 20, -10, -30,
        -30, -10, 30, 40, 40, 30, -10, -30,
        -30, -10, 30, 40, 40, 30, -10, -30,
        -30, -10, 20, 30, 30, 20, -10, -30,
        -30, -20, -10, 0, 0, -10, -20, -30,
        -50, -40, -30, -20, -20, -30, -40, -50
        ]
    }
}

/// The square on the same file and the mirrored rank.
pub open spec fn mirror(s: int) -> int {
    (7 - s / 8) * 8 + s % 8
}

/// The standard table for piece `p` and colour `c` (white 0, black 1):
/// black's is white's with the ranks mirrored.
pub open spec fn standard_row(p: int, c: int) -> Seq<int> {
    if c == 0 {
        white_row(p)
    } else {
        Seq::new(64, |s: int| white_row(p)[mirror(s)])
    }
}

/// `row` holds the values of `expected`.
pub open spec fn row_is(row: [i16; 64], expected: Seq<int>) -> bool {
    forall|s: int| 0 <= s < 64 ==> #[trigger] row@[s] as int == expected[s]
}

/// What stands on square `sq` of `b`: a piece index and `true` for white.
pub open spec fn occupant_of(b: chess::Board, sq: u8) -> Option<(u8, bool)> {
    match (piece_of(b, sq), color_of(b, sq)) {
        (Some(p), Some(c)) => Some((p, c)),
        _ => None,
    }
}

/// The 64 squares of `b`, a1 first.
pub open spec fn board_squares(b: chess::Board) -> Seq<Option<(u8, bool)>> {
    Seq::new(64, |s: int| occupant_of(b, s as u8))
}

/// Each occupant names a piece of the table.
pub open spec fn pieces_in_table(squares: Seq<Option<(u8, bool)>>) -> bool {
    forall|s: int| 0 <= s < squares.len() ==> (#[trigger] squares[s] matches Some((p, _)) ==> p < 7)
}

/// The index of a colour in the table: white 0, black 1.
pub open spec fn color_index(white: bool) -> int {
    if white { 0 } else { 1 }
}

impl Calc {
    /// The table entry for a piece, a colour and a square.
    pub closed spec fn entry(self, p: int, c: int, s: int) -> int {
        self.values@[p]@[c]@[s] as int
    }

    /// The table is the standard one.
    pub open spec fn is_standard(self) -> bool {
        forall|p: int, c: int, s: int|
            0 <= p < 7 && 0 <= c < 2 && 0 <= s < 64 ==> #[trigger] self.entry(p, c, s) == standard_row(p, c)[s]
    }

    /// Every entry of the table is bounded by `MAX_ENTRY`.
    pub closed spec fn wf(self) -> bool {
        forall|p: int, c: int|
            0 <= p < 7 && 0 <= c < 2 ==> row_bounded(#[trigger] self.values@[p]@[c])
    }

    /// What an occupant of square `sq` (a piece index and `true` for white)
    /// adds to the score from the view of white (`is_white`) or black: its
    /// entry, negated for the other side.
    pub open spec fn occupant_value(self, occ: Option<(u8, bool)>, is_white: bool, sq: int) -> int {
        match occ {
            Some((p, c)) => {
                let v = self.entry(p as int, color_index(c), sq);
                if c == is_white { v } else { -v }
            },
            None => 0,
        }
    }

    /// The sum of `occupant_value` over the squares below `n`.
    pub open spec fn squares_below(self, squares: Seq<Option<(u8, bool)>>, is_white: bool, n: nat) -> int
        decreases n,
    {
        if n == 0 {
            0
        } else {
            self.squares_below(squares, is_white, (n - 1) as nat) + self.occupant_value(
                squares[n - 1],
                is_white,
                n - 1,
            )
        }
    }

    /// The piece-square score of a board given square by square.
    pub open spec fn squares_value(self, squares: Seq<Option<(u8, bool)>>, is_white: bool) -> int {
        self.squares_below(squares, is_white, 64)
    }

    /// The piece-square score of a whole position.
    pub open spec fn board_value(self, b: chess::Board, is_white: bool) -> int {
        self.squares_value(board_squares(b), is_white)
    }

    /// The file (column) of a square.
    pub open spec fn file_of(sq: u8) -> int {
        sq as int % 8
    }

    /// The score after `m` is played from `b`, given the score `score` of `b`.
    /// An en-passant capture, a castling or a promotion is scored by a full
    /// evaluation of the new position; any other move adds the change of the
    /// moved piece's entry and the entry of a captured piece (taken from the
    /// mover's side of `is_white` when it is the mover's move, else
    /// subtracted), wrapping at the bounds of `i16`.
    pub open spec fn move_value(self, b: chess::Board, is_white: bool, m: Mv, score: i16) -> int {
        let p = piece_of(b, m.source)->Some_0 as int;
        let c = color_index(white_of(b));
        let o = color_index(!white_of(b));
        let sf = Self::file_of(m.source);
        let ef = Self::file_of(m.dest);
        let captured = piece_of(b, m.dest);
        let en_passant = p == 0 && sf != ef && captured.is_none();
        let castle = p == 5 && (sf - ef == 2 || ef - sf == 2);
        if en_passant || castle || m.promotion.is_some() {
            self.board_value(after(b, m), is_white)
        } else {
            let gain = match captured {
                Some(q) => self.entry(q as int, o, m.dest as int),
                None => 0,
            };
            let delta = self.entry(p, c, m.dest as int) - self.entry(p, c, m.source as int) + gain;
            if white_of(b) == is_white {
                i16_specs::wrapping_add(score, delta as i16) as int
            } else {
                i16_specs::wrapping_sub(score, delta as i16) as int
            }
        }
    }

    /// Score a board given square by square (a1 first): each occupant is a
    /// piece index and `true` for white.
    pub fn score_squares(&self, squares: &Vec<Option<(u8, bool)>>, is_white: bool) -> (r: i16)
        requires
            self.wf(),
            squares@.len() == 64,
            pieces_in_table(squares@),
        ensures
            r as int == self.squares_value(squares@, is_white),
    {
        let mut acc: i32 = 0;
        let mut sq: usize = 0;
        while sq < 64
            invariant
                self.wf(),
                squares@.len() == 64,
                pieces_in_table(squares@),
                sq <= 64,
                acc as int == self.squares_below(squares@, is_white, sq as nat),
                -50 * sq <= acc <= 50 * sq,
            decreases 64 - sq,
        {
            if let Some((p, c)) = squares[sq] {
                assert(squares@[sq as int] matches Some((q, _)) ==> q < 7);
                let ci: usize = if c { 0 } else { 1 };
                proof {
                    assert(row_bounded(self.values@[p as int]@[ci as int]));
                }
                let v = self.values[p as usize][ci][sq] as i32;
                if c == is_white {
                    acc = acc + v;
                } else {
                    acc = acc - v;
                }
            }
            sq = sq + 1;
        }
        acc as i16
    }

    /// Do a piece-square scoring of the entire board.
    pub fn score_board(&self, board: &chess::Board, is_white: bool) -> (r: i16)
        requires
            self.wf(),
        ensures
            r as int == self.board_value(*board, is_white),
    {
        let mut squares: Vec<Option<(u8, bool)>> = Vec::new();
        let mut sq: u8 = 0;
        while sq < 64
            invariant
                sq <= 64,
                squares@.len() == sq,
                forall|s: int| 0 <= s < sq ==> #[trigger] squares@[s] == occupant_of(*board, s as u8),
                pieces_in_table(squares@),
            decreases 64 - sq,
        {
            let occ = match (piece_on(board, sq), color_on(board, sq)) {
                (Some(p), Some(c)) => Some((p, c)),
                _ => None,
            };
            squares.push(occ);
            sq = sq + 1;
        }
        assert(squares@ =~= board_squares(*board));
        self.score_squares(&squares, is_white)
    }

    /// Score the position after `the_move` from the score `score` of `board`,
    /// looking only at the pieces that the move touches (unless it is an
    /// en-passant capture, a castling or a promotion: then the new position is
    /// scored whole).
    pub fn score_move(&self, board: &chess::Board, is_white: bool, the_move: Mv, score: i16) -> (r: i16)
        requires
            self.wf(),
            playable(*board, the_move),
        ensures
            r as int == self.move_value(*board, is_white, the_move, score),
    {
        let p = match piece_on(board, the_move.source) {
            Some(p) => p,
            None => 0,
        };
        let white = white_to_move(board);
        let c: usize = if white { 0 } else { 1 };
        let o: usize = if white { 1 } else { 0 };
        proof {
            assert(row_bounded(self.values@[p as int]@[c as int]));
        }
        let mut delta: i16 = self.values[p as usize][c][the_move.dest as usize];
        delta = delta - self.values[p as usize][c][the_move.source as usize];

        let start_file: u8 = the_move.source % 8;
        let end_file: u8 = the_move.dest % 8;
        let captured = piece_on(board, the_move.dest);

        let en_passant = p == 0 && start_file != end_file && captured.is_none();
        let castle = if start_file > end_file {
            p == 5 && start_file - end_file == 2
        } else {
            p == 5 && end_file - start_file == 2
        };

        if en_passant || castle || the_move.promotion.is_some() {
            let new_board = apply(board, the_move);
            self.score_board(&new_board, is_white)
        } else {
            if let Some(q) = captured {
                proof {
                    assert(row_bounded(self.values@[q as int]@[o as int]));
                }
                delta = delta + self.values[q as usize][o][the_move.dest as usize];
            }
            if white == is_white {
                score.wrapping_add(delta)
            } else {
                score.wrapping_sub(delta)
            }
        }
    }

    /// The evaluator with the standard simplified-evaluation tables.
    pub fn new() -> (r: Self)
        ensures
            r.wf(),
            r.is_standard(),
    {
        let pawn_white: [i16; 64] = [
            0, 0, 0, 0, 0, 0, 0, 0,
            5, 10, 10, -20, -20, 10, 10, 5,
            5, -5, -10, 0, 0, -10, -5, 5,
            0, 0, 0, 20, 20, 0, 0, 0,
            5, 5, 10, 25, 25, 10, 5, 5,
            10, 10, 20, 30, 30, 20, 10, 10,
            50, 50, 50, 50, 50, 50, 50, 50,
            0, 0, 0, 0, 0, 0, 0, 0,
        ];
        let pawn_black: [i16; 64] = [
            0, 0, 0, 0, 0, 0, 0, 0,
            50, 50, 50, 50, 50, 50, 50, 50,
            10, 10, 20, 30, 30, 20, 10, 10,
            5, 5, 10, 25, 25, 10, 5, 5,
            0, 0, 0, 20, 20, 0, 0, 0,
            5, -5, -10, 0, 0, -10, -5, 5,
            5, 10, 10, -20, -20, 10, 10, 5,
            0, 0, 0, 0, 0, 0, 0, 0,
        ];
        let knight_white: [i16; 64] = [
            -50, -40, -30, -30, -30, -30, -40, -50,
            -40, -20, 0, 5, 5, 0, -20, -40,
            -30, 5, 10, 15, 15, 10, 5, -30,
            -30, 0, 15, 20, 20, 15, 0, -30,
            -30, 5, 15, 20, 20, 15, 5, -30,
            -30, 0, 10, 15, 15, 10, 0, -30,
            -40, -20, 0, 0, 0, 0, -20, -40,
            -50, -40, -30, -30, -30, -30, -40, -50,
        ];
        let knight_black: [i16; 64] = [
            -50, -40, -30, -30, -30, -30, -40, -50,
            -40, -20, 0, 0, 0, 0, -20, -40,
            -30, 0, 10, 15, 15, 10, 0, -30,
            -30, 5, 15, 20, 20, 15, 5, -30,
            -30, 0, 15, 20, 20, 15, 0, -30,
            -30, 5, 10, 15, 15, 10, 5, -30,
            -40, -20, 0, 5, 5, 0, -20, -40,
            -50, -40, -30, -30, -30, -30, -40, -50,
        ];
        let bishop_white: [i16; 64] = [
            -20, -10, -10, -10, -10, -10, -10, -20,
            -10, 5, 0, 0, 0, 0, 5, -10,
            -10, 10, 10, 10, 10, 10, 10, -10,
            -10, 0, 10, 10, 10, 10, 0, -10,
            -10, 5, 5, 10, 10, 5, 5, -10,
            -10, 0, 5, 10, 10, 5, 0, -10,
            -10, 0, 0, 0, 0, 0, 0, -10,
            -20, -10, -10, -10, -10, -10, -10, -20,
        ];
        let bishop_black: [i16; 64] = [
            -20, -10, -10, -10, -10, -10, -10, -20,
            -10, 0, 0, 0, 0, 0, 0, -10,
            -10, 0, 5, 10, 10, 5, 0, -10,
            -10, 5, 5, 10, 10, 5, 5, -10,
            -10, 0, 10, 10, 10, 10, 0, -10,
            -10, 10, 10, 10, 10, 10, 10, -10,
            -10, 5, 0, 0, 0, 0, 5, -10,
            -20, -10, -10, -10, -10, -10, -10, -20,
        ];
        let rook_white: [i16; 64] = [
            0, 0, 0, 5, 5, 0, 0, 0,
            -5, 0, 0, 0, 0, 0, 0, -5,
            -5, 0, 0, 0, 0, 0, 0, -5,
            -5, 0, 0, 0, 0, 0, 0, -5,
            -5, 0, 0, 0, 0, 0, 0, -5,
            -5, 0, 0, 0, 0, 0, 0, -5,
            5, 10, 10, 10, 10, 10, 10, 5,
            0, 0, 0, 0, 0, 0, 0, 0,
        ];
        let rook_black: [i16; 64] = [
            0, 0, 0, 0, 0, 0, 0, 0,
            5, 10, 10, 10, 10, 10, 10, 5,
            -5, 0, 0, 0, 0, 0, 0, -5,
            -5, 0, 0, 0, 0, 0, 0, -5,
            -5, 0, 0, 0, 0, 0, 0, -5,
            -5, 0, 0, 0, 0, 0, 0, -5,
            -5, 0, 0, 0, 0, 0, 0, -5,
            0, 0, 0, 5, 5, 0, 0, 0,
        ];
        let queen_white: [i16; 64] = [
            -20, -10, -10, -5, -5, -10, -10, -20,
            -10, 0, 5, 0, 0, 0, 0, -10,
            -10, 5, 5, 5, 5, 5, 0, -10,
            0, 0, 5, 5, 5, 5, 0, -5,
            -5, 0, 5, 5, 5, 5, 0, -5,
            -10, 0, 5, 5, 5, 5, 0, -10,
            -10, 0, 0, 0, 0, 0, 0, -10,
            -20, -10, -10, -5, -5, -10, -10, -20,
        ];
        let queen_black: [i16; 64] = [
            -20, -10, -10, -5, -5, -10, -10, -20,
            -10, 0, 0, 0, 0, 0, 0, -10,
            -10, 0, 5, 5, 5, 5, 0, -10,
            -5, 0, 5, 5, 5, 5, 0, -5,
            0, 0, 5, 5, 5, 5, 0, -5,
            -10, 5, 5, 5, 5, 5, 0, -10,
            -10, 0, 5, 0, 0, 0, 0, -10,
            -20, -10, -10, -5, -5, -10, -10, -20,
        ];
        let king_white: [i16; 64] = [
            20, 30, 10, 0, 0, 10, 30, 20,
            20, 20, 0, 0, 0, 0, 20, 20,
            -10, -20, -20, -20, -20, -20, -20, -10,
            -20, -30, -30, -40, -40, -30, -30, -20,
            -30, -40, -40, -50, -50, -40, -40, -30,
            -30, -40, -40, -50, -50, -40, -40, -30,
            -30, -40, -40, -50, -50, -40, -40, -30,
            -30, -40, -40, -50, -50, -40, -40, -30,
        ];
        let king_black: [i16; 64] = [
            -30, -40, -40, -50, -50, -40, -40, -30,
            -30, -40, -40, -50, -50, -40, -40, -30,
            -30, -40, -40, -50, -50, -40, -40, -30,
            -30, -40, -40, -50, -50, -40, -40, -30,
            -20, -30, -30, -40, -40, -30, -30, -20,
            -10, -20, -20, -20, -20, -20, -20, -10,
            20, 20, 0, 0, 0, 0, 20, 20,
            20, 30, 10, 0, 0, 10, 30, 20,
        ];
        let end_king_white: [i16; 64] = [
            -50, -30, -30, -30, -30, -30, -30, -50,
            -30, -30, 0, 0, 0, 0, -30, -30,
            -30, -10, 20, 30, 30, 20, -10, -30,
            -30, -10, 30, 40, 40, 30, -10, -30,
            -30, -10, 30, 40, 40, 30, -10, -30,
            -30, -10, 20, 30, 30, 20, -10, -30,
            -30, -20, -10, 0, 0, -10, -20, -30,
            -50, -40, -30, -20, -20, -30, -40, -50,
        ];
        let end_king_black: [i16; 64] = [
            -50, -40, -30, -20, -20, -30, -40, -50,
            -30, -20, -10, 0, 0, -10, -20, -30,
            -30, -10, 20, 30, 30, 20, -10, -30,
            -30, -10, 30, 40, 40, 30, -10, -30,
            -30, -10, 30, 40, 40, 30, -10, -30,
            -30, -10, 20, 30, 30, 20, -10, -30,
            -30, -30, 0, 0, 0, 0, -30, -30,
            -50, -30, -30, -30, -30, -30, -30, -50,
        ];
        proof { assert(row_bounded(pawn_white)); }
        proof { assert(row_bounded(pawn_black)); }
        proof { assert(row_bounded(knight_white)); }
        proof { assert(row_bounded(knight_black)); }
        proof { assert(row_bounded(bishop_white)); }
        proof { assert(row_bounded(bishop_black)); }
        proof { assert(row_bounded(rook_white)); }
        proof { assert(row_bounded(rook_black)); }
        proof { assert(row_bounded(queen_white)); }
        proof { assert(row_bounded(queen_black)); }
        proof { assert(row_bounded(king_white)); }
        proof { assert(row_bounded(king_black)); }
        proof { assert(row_bounded(end_king_white)); }
        proof { assert(row_bounded(end_king_black)); }
        let r = Calc {
            values: [
                [pawn_white, pawn_black],
                [knight_white, knight_black],
                [bishop_white, bishop_black],
                [rook_white, rook_black],
                [queen_white, queen_black],
                [king_white, king_black],
                [end_king_white, end_king_black],
            ],
        };
        proof { assert(row_is(pawn_white, standard_row(0, 0))); }
        proof { assert(row_is(pawn_black, standard_row(0, 1))); }
        proof { assert(row_is(knight_white, standard_row(1, 0))); }
        proof { assert(row_is(knight_black, standard_row(1, 1))); }
        proof { assert(row_is(bishop_white, standard_row(2, 0))); }
        proof { assert(row_is(bishop_black, standard_row(2, 1))); }
        proof { assert(row_is(rook_white, standard_row(3, 0))); }
        proof { assert(row_is(rook_black, standard_row(3, 1))); }
        proof { assert(row_is(queen_white, standard_row(4, 0))); }
        proof { assert(row_is(queen_black, standard_row(4, 1))); }
        proof { assert(row_is(king_white, standard_row(5, 0))); }
        proof { assert(row_is(king_black, standard_row(5, 1))); }
        proof { assert(row_is(end_king_white, standard_row(6, 0))); }
        proof { assert(row_is(end_king_black, standard_row(6, 1))); }
        assert(r.is_standard()) by {
            assert forall|p: int, c: int, s: int| 0 <= p < 7 && 0 <= c < 2 && 0 <= s < 64 implies #[trigger] r.entry(
                p,
                c,
                s,
            ) == standard_row(p, c)[s] by {
                assert(r.values@[p]@[c] == r.values[p][c]);
            }
        }
        assert(r.wf()) by {
            assert forall|p: int, c: int| 0 <= p < 7 && 0 <= c < 2 implies row_bounded(
                #[trigger] r.values@[p]@[c],
            ) by {
                assert(r.values@[p]@[c] == r.values[p][c]);
            }
        }
        r
    }
}

} // verus!
