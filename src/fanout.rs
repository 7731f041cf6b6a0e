//! The parallel builder's parts: the first new level of a tree is split into
//! independent units of work, which may run anywhere and in any order, and
//! the finished children are gathered back into the parent.
use crate::board::{after, apply, legal_moves, legal_of, Mv};
use crate::score::Calc;
use crate::tree::{built, fresh_child, leaf, mean, mean_prop, sum_prop, views, with_kids, Node, Tree};
use vstd::prelude::*;

verus! {

/// One child to build: the move, the position it reaches, and the child's
/// own score.
pub struct Unit {
    pub the_move: Mv,
    pub board: chess::Board,
    pub score: i16,
}

impl Unit {
    /// The childless node that this unit starts from.
    pub open spec fn start(self) -> Tree {
        leaf(Some(self.the_move), self.score)
    }

    /// Build this unit's child, expanded (sequentially) to `depth`.
    pub fn run(&self, depth: u8, is_white: bool, calc: &Calc) -> (r: Node)
        requires
            calc.wf(),
        ensures
            r@ == built(self.start(), self.board, depth as nat, is_white, *calc),
    {
        let mut node = Node {
            the_move: Some(self.the_move),
            score: self.score,
            propagate_score: self.score,
            children: Vec::new(),
        };
        assert(node@.kids =~= Seq::<Tree>::empty());
        Node::build_tree(&mut node, &self.board, depth, is_white, calc);
        node
    }
}

/// Whether a call expanding `t` at `b` to `depth` creates a new level.
pub open spec fn creates_level(t: Tree, b: chess::Board, depth: nat) -> bool {
    legal_of(b).len() > 0 && t.kids.len() == 0 && depth > 0
}

impl Node {
    /// The units of work of a call that creates a new level (one per legal
    /// move, in the order of the move generator, to be expanded to
    /// `depth - 1`); `None` for any other call, which runs as `build_tree`.
    pub fn fan_out(tree: &Node, board: &chess::Board, depth: u8, is_white: bool, calc: &Calc) -> (r: Option<Vec<Unit>>)
        requires
            calc.wf(),
        ensures
            r is Some <==> creates_level(tree@, *board, depth as nat),
            r matches Some(units) ==> {
                &&& units@.len() == legal_of(*board).len()
                &&& forall|i: int|
                    0 <= i < units@.len() ==> {
                        let m = #[trigger] legal_of(*board)[i];
                        &&& units@[i].the_move == m
                        &&& units@[i].board == after(*board, m)
                        &&& units@[i].start() == fresh_child(*calc, *board, is_white, m, tree@.score)
                    }
            },
    {
        if depth == 0 || tree.children.len() > 0 {
            return None;
        }
        let moves = legal_moves(board);
        if moves.len() == 0 {
            return None;
        }
        let mut units: Vec<Unit> = Vec::new();
        let mut i: usize = 0;
        while i < moves.len()
            invariant
                calc.wf(),
                moves@ == legal_of(*board),
                forall|j: int| 0 <= j < moves@.len() ==> crate::board::playable(*board, #[trigger] moves@[j]),
                i <= moves@.len(),
                units@.len() == i,
                forall|j: int|
                    0 <= j < i ==> {
                        let m = #[trigger] legal_of(*board)[j];
                        &&& units@[j].the_move == m
                        &&& units@[j].board == after(*board, m)
                        &&& units@[j].start() == fresh_child(*calc, *board, is_white, m, tree@.score)
                    },
            decreases moves@.len() - i,
        {
            let m = moves[i];
            let new_board = apply(board, m);
            let s = calc.score_move(board, is_white, m, tree.score);
            units.push(Unit { the_move: m, board: new_board, score: s });
            i = i + 1;
        }
        Some(units)
    }

    /// Make `children`, received in any order, the children of `tree`, with
    /// the truncating mean of their propagated scores as its own.
    pub fn adopt(tree: &mut Node, children: Vec<Node>)
        requires
            children@.len() > 0,
        ensures
            final(tree)@ == with_kids(old(tree)@, mean_prop(views(children@)) as i16, views(children@)),
    {
        let ghost kids = views(children@);
        let mut sum: i128 = 0;
        let mut i: usize = 0;
        while i < children.len()
            invariant
                kids == views(children@),
                i <= children@.len(),
                sum == sum_prop(kids.take(i as int)),
                -32768 * i <= sum <= 32767 * i,
            decreases children@.len() - i,
        {
            proof {
                assert(kids.take(i + 1).drop_last() =~= kids.take(i as int));
            }
            sum = sum + children[i].propagate_score as i128;
            i = i + 1;
        }
        assert(kids.take(i as int) =~= kids);
        let n = children.len();
        tree.children = children;
        tree.propagate_score = mean(sum, n);
        assert(final(tree)@.kids =~= kids);
    }
}

} // verus!
