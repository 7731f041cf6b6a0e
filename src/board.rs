//! Plain-value moves and the queries on `chess::Board` that the search needs.
use vstd::prelude::*;

verus! {

/// The position type of the `chess` crate, carried through opaquely.
#[verifier::external_type_specification]
#[verifier::external_body]
pub struct ExBoard(chess::Board);

/// A move as plain values: source and destination squares (0..64, a1 = 0,
/// h8 = 63) and, for a promotion, the index of the piece promoted to.
#[derive(Clone, Copy, Debug, PartialEq, Eq, Structural)]
pub struct Mv {
    pub source: u8,
    pub dest: u8,
    pub promotion: Option<u8>,
}

/// The legal moves of a position, in the order in which the move generator
/// of the `chess` crate yields them.
pub uninterp spec fn legal_of(b: chess::Board) -> Seq<Mv>;

/// The position reached by playing a legal move.
pub uninterp spec fn after(b: chess::Board, m: Mv) -> chess::Board;

/// Whether the side to move is in check.
pub uninterp spec fn checked(b: chess::Board) -> bool;

/// Whether white is to move.
pub uninterp spec fn white_of(b: chess::Board) -> bool;

/// The piece on a square, as an index: pawn 0, knight 1, bishop 2, rook 3,
/// queen 4, king 5.
pub uninterp spec fn piece_of(b: chess::Board, sq: u8) -> Option<u8>;

/// The colour of the piece on a square: `true` for white.
pub uninterp spec fn color_of(b: chess::Board, sq: u8) -> Option<bool>;

/// Whether `m` is among the legal moves of `b`.
pub open spec fn is_legal(b: chess::Board, m: Mv) -> bool {
    legal_of(b).contains(m)
}

/// A legal move whose squares and promotion piece are in range and whose
/// source square holds a piece.
pub open spec fn playable(b: chess::Board, m: Mv) -> bool {
    &&& is_legal(b, m)
    &&& m.source < 64
    &&& m.dest < 64
    &&& piece_of(b, m.source).is_some()
    &&& m.promotion matches Some(p) ==> p < 6
}

/// Relies on `chess::MoveGen::new_legal`: it yields the legal moves of the
/// position; each one starts on a square that holds a piece, names squares
/// of the board, and promotes, if at all, to one of the six pieces.
#[verifier::external_body]
pub(crate) fn legal_moves(b: &chess::Board) -> (r: Vec<Mv>)
    ensures
        r@ == legal_of(*b),
        forall|i: int| 0 <= i < r@.len() ==> playable(*b, #[trigger] r@[i]),
{
    chess::MoveGen::new_legal(b)
        .map(|m| Mv {
            source: m.get_source().to_int(),
            dest: m.get_dest().to_int(),
            promotion: m.get_promotion().map(|p| p.to_index() as u8),
        })
        .collect()
}

/// Relies on `chess::Board::make_move_new`, which panics when the source
/// square is empty: it is only called with a legal move.
#[verifier::external_body]
pub(crate) fn apply(b: &chess::Board, m: Mv) -> (r: chess::Board)
    requires
        playable(*b, m),
    ensures
        r == after(*b, m),
{
    let promotion = m.promotion.map(|p| chess::ALL_PIECES[p as usize]);
    let cm = chess::ChessMove::new(
        chess::ALL_SQUARES[m.source as usize],
        chess::ALL_SQUARES[m.dest as usize],
        promotion,
    );
    b.make_move_new(cm)
}

/// Relies on `chess::Board::checkers`: the set of pieces giving check.
#[verifier::external_body]
pub(crate) fn in_check(b: &chess::Board) -> (r: bool)
    ensures
        r == checked(*b),
{
    *b.checkers() != chess::EMPTY
}

/// Relies on `chess::Board::side_to_move`.
#[verifier::external_body]
pub(crate) fn white_to_move(b: &chess::Board) -> (r: bool)
    ensures
        r == white_of(*b),
{
    b.side_to_move() == chess::Color::White
}

/// Relies on `chess::Board::piece_on`: `None` on an empty square, otherwise
/// one of the six piece indices.
#[verifier::external_body]
pub(crate) fn piece_on(b: &chess::Board, sq: u8) -> (r: Option<u8>)
    requires
        sq < 64,
    ensures
        r == piece_of(*b, sq),
        r matches Some(p) ==> p < 6,
{
    b.piece_on(chess::ALL_SQUARES[sq as usize]).map(|p| p.to_index() as u8)
}

/// Relies on `chess::Board::color_on`.
#[verifier::external_body]
pub(crate) fn color_on(b: &chess::Board, sq: u8) -> (r: Option<bool>)
    requires
        sq < 64,
    ensures
        r == color_of(*b, sq),
{
    b.color_on(chess::ALL_SQUARES[sq as usize]).map(|c| c == chess::Color::White)
}

/// A game of the `chess` crate: a start position and the actions since.
#[verifier::external_type_specification]
#[verifier::external_body]
pub struct ExGame(chess::Game);

/// The actions of a game, in order: the move for each move made, `None` for
/// any other action (a draw offer, acceptance or declaration, a resignation).
pub uninterp spec fn actions_of(g: chess::Game) -> Seq<Option<Mv>>;

/// The position that a game has reached.
pub uninterp spec fn position_of(g: chess::Game) -> chess::Board;

/// Whether a position is checkmate: no legal move, and the side to move in
/// check.
pub open spec fn mated(b: chess::Board) -> bool {
    legal_of(b).len() == 0 && checked(b)
}

/// Relies on `chess::Board::status`, which reports checkmate exactly when the
/// legal move generator yields nothing and the checkers are not empty.
#[verifier::external_body]
pub(crate) fn is_checkmate(b: &chess::Board) -> (r: bool)
    ensures
        r == mated(*b),
{
    b.status() == chess::BoardStatus::Checkmate
}

/// Relies on `chess::Game::actions`: the actions taken, in order, each a
/// move or not.
#[verifier::external_body]
pub(crate) fn game_actions(g: &chess::Game) -> (r: Vec<Option<Mv>>)
    ensures
        r@ == actions_of(*g),
{
    g.actions()
        .iter()
        .map(|a| match a {
            chess::Action::MakeMove(m) => Some(Mv {
                source: m.get_source().to_int(),
                dest: m.get_dest().to_int(),
                promotion: m.get_promotion().map(|p| p.to_index() as u8),
            }),
            _ => None,
        })
        .collect()
}

/// Relies on `chess::Game::current_position`.
#[verifier::external_body]
pub(crate) fn current_position(g: &chess::Game) -> (r: chess::Board)
    ensures
        r == position_of(*g),
{
    g.current_position()
}

} // verus!
