//! The agents: each picks a move for the side to move in a game.
use crate::board::{
    actions_of, after, apply, current_position, game_actions, is_checkmate, legal_moves, legal_of, mated,
    position_of, white_of, white_to_move, Mv,
};
use crate::score::Calc;
use crate::laws::lemma_built_kids_legal;
use crate::tree::{built, first_max, has_path, kids_legal, kids_listed, leaf, lemma_view_kids, Node, Tree};
use rand::seq::IteratorRandom;
use vstd::prelude::*;

verus! {

/// The value of an optional node.
pub open spec fn opt_view(o: Option<Node>) -> Option<Tree> {
    match o {
        Some(n) => Some(n@),
        None => None,
    }
}

/// The last two actions of a game, when both are moves.
pub open spec fn two_moves(acts: Seq<Option<Mv>>) -> Option<(Mv, Mv)> {
    if acts.len() >= 2 && acts[acts.len() - 2] is Some && acts[acts.len() - 1] is Some {
        Some((acts[acts.len() - 2]->Some_0, acts[acts.len() - 1]->Some_0))
    } else {
        None
    }
}

/// The root made when no earlier tree can be reused: no children, and the
/// full evaluation of the position from the side to move.
pub open spec fn fresh_root(calc: Calc, pos: chess::Board) -> Tree {
    leaf(None, calc.board_value(pos, white_of(pos)) as i16)
}

/// `t` with its move unset, as a root's is.
pub open spec fn as_root(t: Tree) -> Tree {
    Tree { mv: None, score: t.score, prop: t.prop, kids: t.kids }
}

/// `new` is the root that reuse of `old` gives after the actions `acts` at
/// position `pos`: where the old tree holds the path of the last two moves,
/// the grandchild at its end, made a root, if its children are on legal
/// moves of `pos`; in every other case `fresh`.
pub open spec fn rerooted(old: Option<Tree>, acts: Seq<Option<Mv>>, pos: chess::Board, fresh: Tree, new: Tree) -> bool {
    if old is Some && two_moves(acts) is Some && exists|i: int, j: int|
        has_path(old->Some_0, two_moves(acts)->Some_0.0, two_moves(acts)->Some_0.1, i, j) {
        exists|i: int, j: int|
            has_path(old->Some_0, two_moves(acts)->Some_0.0, two_moves(acts)->Some_0.1, i, j) && if kids_legal(
                #[trigger] old->Some_0.kids[i].kids[j],
                pos,
            ) {
                new == as_root(old->Some_0.kids[i].kids[j])
            } else {
                new == fresh
            }
    } else {
        new == fresh
    }
}

/// Child `k` has the greatest propagated score, and is the first that has it.
pub open spec fn is_best(kids: Seq<Tree>, k: int) -> bool {
    &&& 0 <= k < kids.len()
    &&& forall|i: int| 0 <= i < kids.len() ==> kids[i].prop <= kids[k].prop
    &&& forall|i: int| 0 <= i < k ==> kids[i].prop < kids[k].prop
}

/// `r` is the move that `t` recommends: that of its best child, none when
/// it has no children.
pub open spec fn chosen(t: Tree, r: Option<Mv>) -> bool {
    if t.kids.len() == 0 {
        r is None
    } else {
        exists|k: int| is_best(t.kids, k) && r == t.kids[k].mv
    }
}

/// A chess agent that looks a certain number of moves ahead, keeping the
/// part of its tree that the game went on to from one turn to the next.
pub struct DepthAgent {
    pub calc: Calc,
    pub tree: Option<Node>,
    pub depth: u8,
}

impl DepthAgent {
    pub fn new(depth: u8) -> (r: Self)
        ensures
            r.calc.wf(),
            r.calc.is_standard(),
            r.tree is None,
            r.depth == depth,
    {
        DepthAgent { calc: Calc::new(), tree: None, depth }
    }

    /// Reuse the subtree that the last two moves of `game` lead to as the new
    /// root (its move unset), when its children are all on legal moves of the
    /// current position; otherwise start from a fresh root.
    pub fn reroot(&mut self, game: &chess::Game)
        requires
            old(self).calc.wf(),
        ensures
            final(self).calc == old(self).calc,
            final(self).depth == old(self).depth,
            final(self).tree matches Some(n) && rerooted(
                opt_view(old(self).tree),
                actions_of(*game),
                position_of(*game),
                fresh_root(old(self).calc, position_of(*game)),
                n@,
            ),
            final(self).tree matches Some(n) && n@.mv is None && kids_legal(n@, position_of(*game)),
    {
        let ghost old_tree = opt_view(self.tree);
        let ghost acts = actions_of(*game);
        let pos = current_position(game);
        let ghost fresh = fresh_root(self.calc, pos);
        let mut reused: Option<Node> = None;
        let actions = game_actions(game);
        let count = actions.len();
        let prior = self.tree.take();
        if count >= 2 {
            let first = actions[count - 2];
            let second = actions[count - 1];
            match (first, second, prior) {
                (Some(a), Some(b), Some(t)) => {
                    assert(two_moves(acts) == Some((a, b)));
                    assert(old_tree == Some(t@));
                    let ghost tv = t@;
                    match Node::take_grandchild(t, a, b) {
                        Some(n) => {
                            let ghost (i, j) = choose|i: int, j: int|
                                has_path(tv, a, b, i, j) && n@ == #[trigger] tv.kids[i].kids[j];
                            let moves = legal_moves(&pos);
                            let mut root = n;
                            if kids_listed(&root, &moves) {
                                root.the_move = None;
                                assert(root@.kids =~= n@.kids);
                                assert(root@ == as_root(n@));
                                reused = Some(root);
                            }
                            assert(has_path(old_tree->Some_0, two_moves(acts)->Some_0.0, two_moves(acts)->Some_0.1, i, j));
                            assert(kids_legal(tv.kids[i].kids[j], pos) ==> (reused matches Some(r)
                                && r@ == as_root(tv.kids[i].kids[j])));
                            assert(!kids_legal(tv.kids[i].kids[j], pos) ==> reused is None);
                            assert(reused matches Some(r) ==> rerooted(old_tree, acts, pos, fresh, r@));
                            assert(reused is None ==> rerooted(old_tree, acts, pos, fresh, fresh));
                        },
                        None => {
                            assert(!exists|i: int, j: int| has_path(tv, a, b, i, j));
                            assert(rerooted(old_tree, acts, pos, fresh, fresh));
                        },
                    }
                },
                _ => {
                    assert(two_moves(acts) is None || old_tree is None);
                },
            }
        } else {
            assert(two_moves(acts) is None);
        }
        match reused {
            Some(n) => {
                self.tree = Some(n);
            },
            None => {
                let s = self.calc.score_board(&pos, white_to_move(&pos));
                let root = Node::new(s);
                assert(root@ == fresh);
                assert(root@.kids.len() == 0);
                self.tree = Some(root);
            },
        }
    }

    /// The move of the root's best child.
    pub fn best_move(&self) -> (r: Option<Mv>)
        ensures
            self.tree is None ==> r is None,
            self.tree matches Some(n) ==> chosen(n@, r),
            self.tree matches Some(n) ==> ((forall|i: int| 0 <= i < n@.kids.len() ==> (#[trigger] n@.kids[i]).mv is Some)
                ==> (r is None <==> n@.kids.len() == 0)),
    {
        match &self.tree {
            None => None,
            Some(n) => {
                match Node::best_child(n) {
                    None => {
                        assert(n@.kids.len() == 0);
                        None
                    },
                    Some(k) => {
                        let r = n.children[k].the_move;
                        proof {
                            lemma_view_kids(*n);
                            assert(is_best(n@.kids, k as int) && r == n@.kids[k as int].mv);
                        }
                        r
                    },
                }
            },
        }
    }

    /// Reuse what can be reused of the tree, build it to this agent's depth
    /// from the side to move's view, and return its best move.
    pub fn make_move(&mut self, game: &chess::Game) -> (r: Option<Mv>)
        requires
            old(self).calc.wf(),
        ensures
            final(self).calc == old(self).calc,
            final(self).depth == old(self).depth,
            final(self).tree matches Some(n) && exists|r0: Tree|
                rerooted(
                    opt_view(old(self).tree),
                    actions_of(*game),
                    position_of(*game),
                    fresh_root(old(self).calc, position_of(*game)),
                    r0,
                ) && n@ == built(
                    r0,
                    position_of(*game),
                    old(self).depth as nat,
                    white_of(position_of(*game)),
                    old(self).calc,
                ),
            final(self).tree matches Some(n) && chosen(n@, r),
            final(self).tree matches Some(n) && (r is None <==> n@.kids.len() == 0),
            old(self).depth >= 1 && legal_of(position_of(*game)).len() > 0 ==> (r matches Some(m) && legal_of(
                position_of(*game),
            ).contains(m)),
    {
        self.reroot(game);
        let pos = current_position(game);
        let is_white = white_to_move(&pos);
        let mut tree = self.tree.take().unwrap();
        let ghost r0 = tree@;
        Node::build_tree(&mut tree, &pos, self.depth, is_white, &self.calc);
        proof {
            lemma_built_kids_legal(r0, pos, self.depth as nat, is_white, self.calc);
        }
        self.tree = Some(tree);
        let r = self.best_move();
        proof {
            let t = tree@;
            if t.kids.len() > 0 {
                let k = choose|k: int| is_best(t.kids, k) && r == t.kids[k].mv;
                assert(t.kids[k].mv is Some);
            }
        }
        r
    }
}

/// A chess agent that plays the move whose resulting position scores best
/// for it, a mate above all.
pub struct SimpleAgent {
    pub calc: Calc,
}

impl SimpleAgent {
    /// What playing `m` from `b` is worth to the mover: `1000` for a mate,
    /// else the full evaluation of the new position.
    pub open spec fn outcome(self, b: chess::Board, m: Mv) -> int {
        if mated(after(b, m)) {
            1000
        } else {
            self.calc.board_value(after(b, m), white_of(b))
        }
    }

    pub fn new() -> (r: Self)
        ensures
            r.calc.wf(),
            r.calc.is_standard(),
    {
        SimpleAgent { calc: Calc::new() }
    }

    /// The first legal move of greatest outcome, among those worth more
    /// than `-1000`.
    pub fn make_move(&self, game: &chess::Game) -> (r: Option<Mv>)
        requires
            self.calc.wf(),
        ensures
            ({
                let b = position_of(*game);
                let moves = legal_of(b);
                &&& r is None <==> forall|i: int| 0 <= i < moves.len() ==> self.outcome(b, moves[i]) <= -1000
                &&& r matches Some(m) ==> exists|k: int|
                    {
                        &&& 0 <= k < moves.len()
                        &&& m == moves[k]
                        &&& self.outcome(b, moves[k]) > -1000
                        &&& forall|i: int| 0 <= i < moves.len() ==> self.outcome(b, moves[i]) <= self.outcome(b, moves[k])
                        &&& forall|i: int| 0 <= i < k ==> self.outcome(b, moves[i]) < self.outcome(b, moves[k])
                    }
            }),
    {
        let board = current_position(game);
        let white = white_to_move(&board);
        let moves = legal_moves(&board);
        let mut values: Vec<i16> = Vec::new();
        let mut i: usize = 0;
        while i < moves.len()
            invariant
                self.calc.wf(),
                white == white_of(board),
                board == position_of(*game),
                moves@ == legal_of(board),
                forall|j: int| 0 <= j < moves@.len() ==> crate::board::playable(board, #[trigger] moves@[j]),
                i <= moves@.len(),
                values@.len() == i,
                forall|j: int| 0 <= j < i ==> values@[j] as int == self.outcome(board, #[trigger] moves@[j]),
            decreases moves@.len() - i,
        {
            let next = apply(&board, moves[i]);
            let s: i16 = if is_checkmate(&next) {
                1000
            } else {
                self.calc.score_board(&next, white)
            };
            values.push(s);
            i = i + 1;
        }
        match first_max(&values, -1000) {
            None => None,
            Some(k) => Some(moves[k]),
        }
    }
}

/// The random number generator of the `rand` crate.
#[verifier::external_type_specification]
#[verifier::external_body]
pub struct ExThreadRng(rand::rngs::ThreadRng);

/// Relies on `rand::thread_rng`: a handle on the thread's generator.
#[verifier::external_body]
fn thread_rng() -> (r: rand::rngs::ThreadRng) {
    rand::thread_rng()
}

/// Relies on `rand::seq::IteratorRandom::choose` over `0..n`: `None` only
/// when the range is empty, else one of its numbers.
#[verifier::external_body]
fn choose_below(rng: &mut rand::rngs::ThreadRng, n: usize) -> (r: Option<usize>)
    ensures
        r is None <==> n == 0,
        r matches Some(i) ==> i < n,
{
    (0..n).choose(rng)
}

/// A chess agent that makes random moves.
pub struct RandomAgent {
    rng: rand::rngs::ThreadRng,
}

impl RandomAgent {
    pub fn new() -> (r: Self) {
        RandomAgent { rng: thread_rng() }
    }

    /// One of the legal moves, at random; `None` when there is none.
    pub fn make_move(&mut self, game: &chess::Game) -> (r: Option<Mv>)
        ensures
            r is None <==> legal_of(position_of(*game)).len() == 0,
            r matches Some(m) ==> legal_of(position_of(*game)).contains(m),
    {
        let board = current_position(game);
        let moves = legal_moves(&board);
        match choose_below(&mut self.rng, moves.len()) {
            None => None,
            Some(i) => {
                assert(moves@.contains(moves@[i as int]));
                Some(moves[i])
            },
        }
    }
}

} // verus!
