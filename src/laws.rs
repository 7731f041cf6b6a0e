//! Properties of expansion that relate several calls or hold of every input.
use crate::board::{after, checked, legal_of, white_of};
use crate::fanout::creates_level;
use crate::score::{board_squares, mirror, standard_row, Calc};
use crate::tree::{built, fresh_child, kids_legal, leads_from, mean_prop, sum_prop, trunc_div, with_kids, Tree, LOSS, WIN};
use vstd::prelude::*;
use vstd::seq_lib::{to_multiset_build, to_multiset_contains, to_multiset_len, to_multiset_remove};

verus! {

/// The squares below `n` score the same for one side as the negation for
/// the other.
proof fn lemma_squares_below_symmetric(calc: Calc, squares: Seq<Option<(u8, bool)>>, n: nat)
    ensures
        calc.squares_below(squares, true, n) == -calc.squares_below(squares, false, n),
    decreases n,
{
    if n > 0 {
        lemma_squares_below_symmetric(calc, squares, (n - 1) as nat);
    }
}

/// A position's full evaluation from white's view is the negation of the
/// evaluation from black's.
pub proof fn lemma_board_value_symmetric(calc: Calc, b: chess::Board)
    ensures
        calc.board_value(b, true) == -calc.board_value(b, false),
{
    lemma_squares_below_symmetric(calc, board_squares(b), 64);
}

/// Changing what stands on square `k` changes the score of the squares
/// below `n` by the difference of the two occupants' values there.
pub proof fn lemma_update_square(
    calc: Calc,
    squares: Seq<Option<(u8, bool)>>,
    is_white: bool,
    k: int,
    occ: Option<(u8, bool)>,
    n: nat,
)
    requires
        0 <= k < squares.len(),
        n <= squares.len(),
    ensures
        calc.squares_below(squares.update(k, occ), is_white, n) == calc.squares_below(squares, is_white, n) + if k < n {
            calc.occupant_value(occ, is_white, k) - calc.occupant_value(squares[k], is_white, k)
        } else {
            0
        },
    decreases n,
{
    if n > 0 {
        lemma_update_square(calc, squares, is_white, k, occ, (n - 1) as nat);
    }
}

/// Moving a piece between two squares, the second empty, changes the score
/// by the piece's entry on the new square less its entry on the old one
/// (negated when the piece is not the scoring side's).
pub proof fn lemma_quiet_move(
    calc: Calc,
    squares: Seq<Option<(u8, bool)>>,
    is_white: bool,
    from: int,
    to: int,
    piece: (u8, bool),
)
    requires
        squares.len() == 64,
        0 <= from < 64,
        0 <= to < 64,
        from != to,
        squares[from] == Some(piece),
        squares[to] is None,
    ensures
        calc.squares_value(squares.update(from, None).update(to, Some(piece)), is_white) == calc.squares_value(
            squares,
            is_white,
        ) + calc.occupant_value(Some(piece), is_white, to) - calc.occupant_value(Some(piece), is_white, from),
{
    let mid = squares.update(from, None);
    lemma_update_square(calc, squares, is_white, from, None, 64);
    lemma_update_square(calc, mid, is_white, to, Some(piece), 64);
}

/// From any board with a white pawn on e2 and e4 empty, the double pawn
/// push scores 40 more for white and 40 less for black; from any board with
/// a black knight on b8 and a6 empty, the knight's move scores 10 more for
/// black.
pub proof fn lemma_opening_moves(calc: Calc, squares: Seq<Option<(u8, bool)>>)
    requires
        calc.is_standard(),
        squares.len() == 64,
    ensures
        squares[12] == Some((0u8, true)) && squares[28] is None ==> {
            let next = squares.update(12, None).update(28, Some((0u8, true)));
            &&& calc.squares_value(next, true) == calc.squares_value(squares, true) + 40
            &&& calc.squares_value(next, false) == calc.squares_value(squares, false) - 40
        },
        squares[57] == Some((1u8, false)) && squares[40] is None ==> calc.squares_value(
            squares.update(57, None).update(40, Some((1u8, false))),
            false,
        ) == calc.squares_value(squares, false) + 10,
{
    if squares[12] == Some((0u8, true)) && squares[28] is None {
        lemma_quiet_move(calc, squares, true, 12, 28, (0u8, true));
        lemma_quiet_move(calc, squares, false, 12, 28, (0u8, true));
        assert(calc.entry(0, 0, 28) == standard_row(0, 0)[28]);
        assert(calc.entry(0, 0, 12) == standard_row(0, 0)[12]);
    }
    if squares[57] == Some((1u8, false)) && squares[40] is None {
        lemma_quiet_move(calc, squares, false, 57, 40, (1u8, false));
        assert(calc.entry(1, 1, 40) == standard_row(1, 1)[40]);
        assert(calc.entry(1, 1, 57) == standard_row(1, 1)[57]);
        assert(mirror(40) == 16);
        assert(mirror(57) == 1);
    }
}

/// The piece on file `f` of a back rank at the start: rook, knight, bishop,
/// queen, king, bishop, knight, rook.
pub open spec fn back_rank_piece(f: int) -> u8 {
    if f == 0 || f == 7 {
        3
    } else if f == 1 || f == 6 {
        1
    } else if f == 2 || f == 5 {
        2
    } else if f == 3 {
        4
    } else {
        5
    }
}

/// The squares of the standard starting position, a1 first.
pub open spec fn start_squares() -> Seq<Option<(u8, bool)>> {
    Seq::new(
        64,
        |s: int|
            if s < 8 {
                Some((back_rank_piece(s % 8), true))
            } else if s < 16 {
                Some((0u8, true))
            } else if s >= 56 {
                Some((back_rank_piece(s % 8), false))
            } else if s >= 48 {
                Some((0u8, false))
            } else {
                None
            },
    )
}

/// The standard starting position scores zero for either side.
#[verifier::rlimit(100)]
pub proof fn lemma_start_is_even(calc: Calc)
    requires
        calc.is_standard(),
    ensures
        calc.squares_value(start_squares(), true) == 0,
        calc.squares_value(start_squares(), false) == 0,
{
    let sq = start_squares();
    assert forall|s: int| 0 <= s < 16 implies #[trigger] calc.occupant_value(sq[s], true, s) + calc.occupant_value(
        sq[mirror(s)],
        true,
        mirror(s),
    ) == 0 by {
        let p = sq[s]->Some_0.0 as int;
        assert(calc.entry(p, 0, s) == standard_row(p, 0)[s]);
        assert(calc.entry(p, 1, mirror(s)) == standard_row(p, 1)[mirror(s)]);
        assert(mirror(mirror(s)) == s);
    }
    reveal_with_fuel(Calc::squares_below, 65);
    assert(calc.squares_value(sq, true) == 0);
    lemma_squares_below_symmetric(calc, sq, 64);
}

/// Expansion keeps a node's move and own score.
pub proof fn lemma_built_keeps(t: Tree, b: chess::Board, depth: nat, is_white: bool, calc: Calc)
    ensures
        built(t, b, depth, is_white, calc).mv == t.mv,
        built(t, b, depth, is_white, calc).score == t.score,
{
}

/// A position without legal moves keeps its own score on a stalemate, and
/// scores a loss (`-1000`) or a win (`1000`) on a checkmate, as the mated side
/// is or is not the scoring side; nothing else changes.
pub proof fn lemma_terminal(t: Tree, b: chess::Board, depth: nat, is_white: bool, calc: Calc)
    requires
        legal_of(b).len() == 0,
    ensures
        built(t, b, depth, is_white, calc).kids == t.kids,
        !checked(b) ==> built(t, b, depth, is_white, calc).prop == t.score,
        checked(b) && white_of(b) == is_white ==> built(t, b, depth, is_white, calc).prop == LOSS,
        checked(b) && white_of(b) != is_white ==> built(t, b, depth, is_white, calc).prop == WIN,
{
}

/// Expanding a childless node to depth one gives one child per legal move,
/// in order, each with its incremental score; where no move ends the game,
/// the node's propagated score is the truncating mean of those scores.
pub proof fn lemma_first_level(t: Tree, b: chess::Board, is_white: bool, calc: Calc)
    requires
        t.kids.len() == 0,
        legal_of(b).len() > 0,
        forall|i: int| 0 <= i < legal_of(b).len() ==> legal_of(after(b, #[trigger] legal_of(b)[i])).len() > 0,
    ensures
        built(t, b, 1, is_white, calc).kids.len() == legal_of(b).len(),
        forall|i: int|
            0 <= i < legal_of(b).len() ==> #[trigger] built(t, b, 1, is_white, calc).kids[i] == fresh_child(
                calc,
                b,
                is_white,
                legal_of(b)[i],
                t.score,
            ),
        built(t, b, 1, is_white, calc).prop == trunc_div(
            sum_prop(built(t, b, 1, is_white, calc).kids),
            legal_of(b).len() as int,
        ) as i16,
{
    let r = built(t, b, 1, is_white, calc);
    assert forall|i: int| 0 <= i < legal_of(b).len() implies #[trigger] r.kids[i] == fresh_child(
        calc,
        b,
        is_white,
        legal_of(b)[i],
        t.score,
    ) by {
        let m = legal_of(b)[i];
        let f = fresh_child(calc, b, is_white, m, t.score);
        assert(legal_of(after(b, m)).len() > 0);
        assert(built(f, after(b, m), 0, is_white, calc) == f);
    }
}

/// Expanding a childless node to `depth` and then to `depth + 1` gives the
/// same tree as expanding it to `depth + 1` at once.
pub proof fn lemma_deepen(t: Tree, b: chess::Board, depth: nat, is_white: bool, calc: Calc)
    requires
        t.kids.len() == 0,
    ensures
        built(built(t, b, depth, is_white, calc), b, depth + 1, is_white, calc) == built(t, b, depth + 1, is_white, calc),
    decreases depth,
{
    let moves = legal_of(b);
    let once = built(t, b, depth, is_white, calc);
    let twice = built(once, b, depth + 1, is_white, calc);
    let direct = built(t, b, depth + 1, is_white, calc);
    if moves.len() == 0 {
        assert(twice == direct);
    } else if depth == 0 {
        assert(once == t);
    } else {
        assert(once.kids.len() == moves.len());
        assert forall|i: int| 0 <= i < moves.len() implies #[trigger] twice.kids[i] == direct.kids[i] by {
            let m = moves[i];
            let f = fresh_child(calc, b, is_white, m, t.score);
            let k = built(f, after(b, m), (depth - 1) as nat, is_white, calc);
            assert(once.kids[i] == k);
            lemma_built_keeps(f, after(b, m), (depth - 1) as nat, is_white, calc);
            assert(moves.contains(m));
            assert(leads_from(b, k));
            lemma_deepen(f, after(b, m), (depth - 1) as nat, is_white, calc);
            assert(twice.kids[i] == built(k, after(b, m), depth, is_white, calc));
        }
        assert(twice.kids =~= direct.kids);
    }
}

/// Expansion keeps every child on a legal move of the position, and with
/// depth left and a legal move to play it leaves the node with children.
pub proof fn lemma_built_kids_legal(t: Tree, b: chess::Board, depth: nat, is_white: bool, calc: Calc)
    requires
        kids_legal(t, b),
    ensures
        kids_legal(built(t, b, depth, is_white, calc), b),
        depth >= 1 && legal_of(b).len() > 0 ==> built(t, b, depth, is_white, calc).kids.len() > 0,
{
    let moves = legal_of(b);
    let r = built(t, b, depth, is_white, calc);
    if moves.len() == 0 {
    } else if t.kids.len() == 0 && depth > 0 {
        assert forall|i: int| 0 <= i < r.kids.len() implies (#[trigger] r.kids[i]).mv is Some && legal_of(b).contains(
            r.kids[i].mv->Some_0,
        ) by {
            let f = fresh_child(calc, b, is_white, moves[i], t.score);
            lemma_built_keeps(f, after(b, moves[i]), (depth - 1) as nat, is_white, calc);
            assert(moves.contains(moves[i]));
        }
    } else if depth > 1 {
        assert forall|i: int| 0 <= i < r.kids.len() implies (#[trigger] r.kids[i]).mv is Some && legal_of(b).contains(
            r.kids[i].mv->Some_0,
        ) by {
            assert(t.kids[i].mv is Some);
            if leads_from(b, t.kids[i]) {
                lemma_built_keeps(t.kids[i], after(b, t.kids[i].mv->Some_0), (depth - 1) as nat, is_white, calc);
            }
        }
    }
}

/// Black's standard table is white's with the ranks mirrored.
pub proof fn lemma_colours_mirror(calc: Calc)
    requires
        calc.is_standard(),
    ensures
        forall|p: int, s: int|
            0 <= p < 7 && 0 <= s < 64 ==> #[trigger] calc.entry(p, 1, s) == calc.entry(p, 0, mirror(s)),
{
    assert forall|p: int, s: int| 0 <= p < 7 && 0 <= s < 64 implies #[trigger] calc.entry(p, 1, s) == calc.entry(
        p,
        0,
        mirror(s),
    ) by {
        assert(0 <= mirror(s) < 64);
        assert(calc.entry(p, 0, mirror(s)) == standard_row(p, 0)[mirror(s)]);
    }
}

/// Removing one value from a sequence takes its propagated score off the sum.
proof fn lemma_sum_prop_remove(s: Seq<Tree>, k: int)
    requires
        0 <= k < s.len(),
    ensures
        sum_prop(s) == sum_prop(s.remove(k)) + s[k].prop,
    decreases s.len(),
{
    if k == s.len() - 1 {
        assert(s.remove(k) =~= s.drop_last());
    } else {
        lemma_sum_prop_remove(s.drop_last(), k);
        assert(s.drop_last().remove(k) =~= s.remove(k).drop_last());
        assert(s.remove(k).last() == s.last());
    }
}

/// Sequences that hold the same values, in whatever order, have the same
/// sum of propagated scores.
proof fn lemma_sum_prop_order_free(a: Seq<Tree>, b: Seq<Tree>)
    requires
        a.to_multiset() == b.to_multiset(),
    ensures
        sum_prop(a) == sum_prop(b),
    decreases a.len(),
{
    to_multiset_len(a);
    to_multiset_len(b);
    if a.len() > 0 {
        let x = a.last();
        let rest = a.drop_last();
        assert(rest.push(x) =~= a);
        to_multiset_build(rest, x);
        to_multiset_contains(a, x);
        to_multiset_contains(b, x);
        assert(a.contains(x)) by {
            assert(a[a.len() - 1] == x);
        }
        let k = choose|k: int| 0 <= k < b.len() && b[k] == x;
        to_multiset_remove(b, k);
        assert(rest.to_multiset() =~= a.to_multiset().remove(x));
        lemma_sum_prop_order_free(rest, b.remove(k));
        lemma_sum_prop_remove(b, k);
    }
}

/// The children of a newly created level, gathered in any order, give the
/// parent the propagated score that sequential expansion gives it.
pub proof fn lemma_gather_any_order(
    t: Tree,
    b: chess::Board,
    depth: nat,
    is_white: bool,
    calc: Calc,
    kids: Seq<Tree>,
)
    requires
        creates_level(t, b, depth),
        kids.to_multiset() == built(t, b, depth, is_white, calc).kids.to_multiset(),
    ensures
        with_kids(t, mean_prop(kids) as i16, kids).prop == built(t, b, depth, is_white, calc).prop,
{
    let seq = built(t, b, depth, is_white, calc).kids;
    to_multiset_len(kids);
    to_multiset_len(seq);
    lemma_sum_prop_order_free(kids, seq);
}

} // verus!
