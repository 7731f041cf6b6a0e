//! The search tree and its builder: expansion to a depth, with each node's
//! propagated score the truncating mean of its children's.
use crate::board::{after, apply, checked, in_check, legal_moves, legal_of, playable, white_of, white_to_move, Mv};
use crate::score::Calc;
use vstd::prelude::*;

verus! {

/// The score of a lost position, from the loser's view.
pub const LOSS: i16 = -1000;

/// The score of a won position.
pub const WIN: i16 = 1000;

/// Tree search node containing move and score.
pub struct Node {
    /// The move that led here from the parent; `None` at the root.
    pub the_move: Option<Mv>,
    /// This node's own evaluation, fixed when the node is made.
    pub score: i16,
    /// The score used to rank moves: `score` at a leaf, the mean of the
    /// children's propagated scores above them.
    pub propagate_score: i16,
    /// The nodes reached by one more move; empty until expanded.
    pub children: Vec<Node>,
}

/// The mathematical value of a `Node`.
pub struct Tree {
    pub mv: Option<Mv>,
    pub score: i16,
    pub prop: i16,
    pub kids: Seq<Tree>,
}

/// A childless node whose propagated score is its own score.
pub open spec fn leaf(mv: Option<Mv>, score: i16) -> Tree {
    Tree { mv, score, prop: score, kids: Seq::empty() }
}

/// The values of a sequence of nodes.
pub open spec fn views(s: Seq<Node>) -> Seq<Tree> {
    Seq::new(s.len(), |i: int| s[i]@)
}

/// The sum of the propagated scores of `kids`.
pub open spec fn sum_prop(kids: Seq<Tree>) -> int
    decreases kids.len(),
{
    if kids.len() == 0 {
        0
    } else {
        sum_prop(kids.drop_last()) + kids.last().prop
    }
}

/// Division that truncates toward zero.
pub open spec fn trunc_div(a: int, n: int) -> int {
    if a >= 0 {
        a / n
    } else {
        -((-a) / n)
    }
}

/// The truncating mean of the propagated scores of `kids`.
pub open spec fn mean_prop(kids: Seq<Tree>) -> int {
    trunc_div(sum_prop(kids), kids.len() as int)
}

/// The propagated score of a node whose position `b` has no legal move: its
/// own score on a stalemate, a loss when the side to move (checkmated) is
/// the scoring side `is_white`, else a win.
pub open spec fn terminal_prop(t: Tree, b: chess::Board, is_white: bool) -> i16 {
    if !checked(b) {
        t.score
    } else if white_of(b) == is_white {
        LOSS
    } else {
        WIN
    }
}

/// `t` with another propagated score and other children.
pub open spec fn with_kids(t: Tree, prop: i16, kids: Seq<Tree>) -> Tree {
    Tree { mv: t.mv, score: t.score, prop, kids }
}

/// The fresh child for move `m` from `b`, scored incrementally from the
/// parent's score.
pub open spec fn fresh_child(calc: Calc, b: chess::Board, is_white: bool, m: Mv, parent_score: i16) -> Tree {
    leaf(Some(m), calc.move_value(b, is_white, m, parent_score) as i16)
}

/// `kid` carries a legal move of `b`.
pub open spec fn leads_from(b: chess::Board, kid: Tree) -> bool {
    kid.mv is Some && legal_of(b).contains(kid.mv->Some_0)
}

/// The tree that expanding `t` at position `b` to `depth` yields.
/// A terminal position sets the propagated score alone. A childless node
/// with depth left gets one child per legal move, each expanded one level
/// less. A node with children and more than one level left has each child
/// deepened one level less (a child whose move is not legal in `b` is left
/// as it is). The propagated score of an expanded node is the
/// truncating mean of its children's.
pub open spec fn built(t: Tree, b: chess::Board, depth: nat, is_white: bool, calc: Calc) -> Tree
    decreases depth,
{
    let moves = legal_of(b);
    if moves.len() == 0 {
        with_kids(t, terminal_prop(t, b, is_white), t.kids)
    } else if t.kids.len() == 0 && depth > 0 {
        let kids = Seq::new(
            moves.len(),
            |i: int|
                built(
                    fresh_child(calc, b, is_white, moves[i], t.score),
                    after(b, moves[i]),
                    (depth - 1) as nat,
                    is_white,
                    calc,
                ),
        );
        with_kids(t, mean_prop(kids) as i16, kids)
    } else if depth > 1 {
        let kids = Seq::new(
            t.kids.len(),
            |i: int|
                if leads_from(b, t.kids[i]) {
                    built(t.kids[i], after(b, t.kids[i].mv->Some_0), (depth - 1) as nat, is_white, calc)
                } else {
                    t.kids[i]
                },
        );
        with_kids(t, mean_prop(kids) as i16, kids)
    } else {
        t
    }
}

impl Node {
    /// The value of this node and its subtree.
    pub open spec fn view(&self) -> Tree
        decreases self,
    {
        Tree {
            mv: self.the_move,
            score: self.score,
            prop: self.propagate_score,
            kids: Seq::new(
                self.children@.len(),
                |i: int|
                    if 0 <= i < self.children@.len() {
                        self.children@[i].view()
                    } else {
                        leaf(None, 0)
                    },
            ),
        }
    }

    /// A root: no move, no children, the propagated score equal to `score`.
    pub fn new(score: i16) -> (r: Self)
        ensures
            r@ == leaf(None, score),
    {
        let r = Node { the_move: None, score, propagate_score: score, children: Vec::new() };
        assert(r@.kids =~= Seq::<Tree>::empty());
        r
    }
}

/// Whether `m` is among `moves`.
pub fn contains_move(moves: &Vec<Mv>, m: Mv) -> (r: bool)
    ensures
        r == moves@.contains(m),
{
    let mut i: usize = 0;
    while i < moves.len()
        invariant
            i <= moves@.len(),
            forall|j: int| 0 <= j < i ==> moves@[j] != m,
        decreases moves@.len() - i,
    {
        if moves[i] == m {
            return true;
        }
        i = i + 1;
    }
    false
}

/// The truncating mean of `n` values that sum to `sum`.
pub fn mean(sum: i128, n: usize) -> (r: i16)
    requires
        n > 0,
        -32768 * n <= sum <= 32767 * n,
    ensures
        r as int == trunc_div(sum as int, n as int),
{
    if sum >= 0 {
        assert((sum as int) / (n as int) <= 32767) by (nonlinear_arith)
            requires
                0 <= sum <= 32767 * n,
                n > 0,
        ;
        (sum / (n as i128)) as i16
    } else {
        assert((-sum as int) / (n as int) <= 32768) by (nonlinear_arith)
            requires
                0 < -sum <= 32768 * n,
                n > 0,
        ;
        let q: i128 = (-sum) / (n as i128);
        (-q) as i16
    }
}

/// The sum of the propagated scores of the first `n + 1` values is that of
/// the first `n` plus the next one.
proof fn lemma_sum_prop_step(s: Seq<Tree>, n: int)
    requires
        0 <= n < s.len(),
    ensures
        sum_prop(s.take(n + 1)) == sum_prop(s.take(n)) + s[n].prop,
{
    assert(s.take(n + 1).drop_last() =~= s.take(n));
}

/// The propagated scores of `s` sum to a value in the range of their mean.
proof fn lemma_sum_prop_bounds(s: Seq<Tree>)
    ensures
        -32768 * s.len() <= sum_prop(s) <= 32767 * s.len(),
    decreases s.len(),
{
    if s.len() > 0 {
        lemma_sum_prop_bounds(s.drop_last());
    }
}

impl Node {
    /// Build out the move tree to the specified depth, propagating scores up.
    pub fn build_tree(tree: &mut Node, board: &chess::Board, depth: u8, is_white: bool, calc: &Calc)
        requires
            calc.wf(),
        ensures
            final(tree)@ == built(old(tree)@, *board, depth as nat, is_white, *calc),
        decreases depth,
    {
        let ghost t0 = tree@;
        let moves = legal_moves(board);
        if moves.len() == 0 {
            if !in_check(board) {
                tree.propagate_score = tree.score;
            } else if white_to_move(board) == is_white {
                tree.propagate_score = LOSS;
            } else {
                tree.propagate_score = WIN;
            }
            assert(tree@.kids =~= t0.kids);
        } else if tree.children.len() == 0 && depth > 0 {
            let ghost target = built(t0, *board, depth as nat, is_white, *calc);
            let mut kids: Vec<Node> = Vec::new();
            let mut sum: i128 = 0;
            let mut i: usize = 0;
            while i < moves.len()
                invariant
                    calc.wf(),
                    depth > 0,
                    tree@ == t0,
                    t0.kids.len() == 0,
                    moves@ == legal_of(*board),
                    forall|j: int| 0 <= j < moves@.len() ==> playable(*board, #[trigger] moves@[j]),
                    target == built(t0, *board, depth as nat, is_white, *calc),
                    target.kids.len() == moves@.len(),
                    i <= moves@.len(),
                    kids@.len() == i,
                    forall|j: int| 0 <= j < i ==> (#[trigger] kids@[j])@ == target.kids[j],
                    sum == sum_prop(target.kids.take(i as int)),
                    -32768 * i <= sum <= 32767 * i,
                decreases moves@.len() - i,
            {
                let m = moves[i];
                let new_board = apply(board, m);
                let s = calc.score_move(board, is_white, m, tree.score);
                let mut node = Node { the_move: Some(m), score: s, propagate_score: s, children: Vec::new() };
                assert(node@ == fresh_child(*calc, *board, is_white, m, t0.score)) by {
                    assert(node@.kids =~= Seq::<Tree>::empty());
                }
                Node::build_tree(&mut node, &new_board, depth - 1, is_white, calc);
                assert(node@ == target.kids[i as int]);
                proof {
                    lemma_sum_prop_step(target.kids, i as int);
                }
                sum = sum + node.propagate_score as i128;
                kids.push(node);
                i = i + 1;
            }
            proof {
                assert(target.kids.take(i as int) =~= target.kids);
                lemma_sum_prop_bounds(target.kids);
            }
            tree.children = kids;
            tree.propagate_score = mean(sum, i);
            assert(tree@.kids =~= target.kids);
        } else if depth > 1 {
            let ghost target = built(t0, *board, depth as nat, is_white, *calc);
            let n = tree.children.len();
            let mut sum: i128 = 0;
            let mut i: usize = 0;
            while i < n
                invariant
                    calc.wf(),
                    depth > 1,
                    n > 0,
                    moves@ == legal_of(*board),
                    forall|j: int| 0 <= j < moves@.len() ==> playable(*board, #[trigger] moves@[j]),
                    target == built(t0, *board, depth as nat, is_white, *calc),
                    target.kids.len() == n,
                    t0.kids.len() == n,
                    tree.children@.len() == n,
                    tree.the_move == t0.mv,
                    tree.score == t0.score,
                    i <= n,
                    forall|j: int| 0 <= j < i ==> (#[trigger] tree.children@[j])@ == target.kids[j],
                    forall|j: int| i <= j < n ==> (#[trigger] tree.children@[j])@ == t0.kids[j],
                    sum == sum_prop(target.kids.take(i as int)),
                    -32768 * i <= sum <= 32767 * i,
                decreases n - i,
            {
                assert(tree.children@[i as int]@ == t0.kids[i as int]);
                if let Some(m) = tree.children[i].the_move {
                    if contains_move(&moves, m) {
                        let new_board = apply(board, m);
                        Node::build_tree(&mut tree.children[i], &new_board, depth - 1, is_white, calc);
                    }
                }
                proof {
                    lemma_sum_prop_step(target.kids, i as int);
                }
                sum = sum + tree.children[i].propagate_score as i128;
                i = i + 1;
            }
            proof {
                assert(target.kids.take(i as int) =~= target.kids);
                lemma_sum_prop_bounds(target.kids);
            }
            tree.propagate_score = mean(sum, n);
            assert(tree@.kids =~= target.kids);
        }
    }
}

/// Every child of `t` carries a move that is legal in `b`.
pub open spec fn kids_legal(t: Tree, b: chess::Board) -> bool {
    forall|i: int|
        0 <= i < t.kids.len() ==> (#[trigger] t.kids[i]).mv is Some && legal_of(b).contains(t.kids[i].mv->Some_0)
}

/// `t.kids[i]` carries move `a` and its child `t.kids[i].kids[j]` carries `b`.
pub open spec fn has_path(t: Tree, a: Mv, b: Mv, i: int, j: int) -> bool {
    &&& 0 <= i < t.kids.len()
    &&& 0 <= j < t.kids[i].kids.len()
    &&& t.kids[i].mv == Some(a)
    &&& t.kids[i].kids[j].mv == Some(b)
}

/// The first index of the greatest of `values` among those above `floor`.
pub fn first_max(values: &Vec<i16>, floor: i32) -> (r: Option<usize>)
    ensures
        r is None <==> forall|i: int| 0 <= i < values@.len() ==> values@[i] <= floor,
        r matches Some(k) ==> {
            &&& k < values@.len()
            &&& values@[k as int] > floor
            &&& forall|i: int| 0 <= i < values@.len() ==> values@[i] <= values@[k as int]
            &&& forall|i: int| 0 <= i < k ==> values@[i] < values@[k as int]
        },
{
    let mut best: i32 = floor;
    let mut found: Option<usize> = None;
    let mut i: usize = 0;
    while i < values.len()
        invariant
            i <= values@.len(),
            found is None ==> best == floor && forall|j: int| 0 <= j < i ==> values@[j] <= floor,
            found matches Some(k) ==> {
                &&& k < i
                &&& best == values@[k as int]
                &&& values@[k as int] > floor
                &&& forall|j: int| 0 <= j < i ==> values@[j] <= values@[k as int]
                &&& forall|j: int| 0 <= j < k ==> values@[j] < values@[k as int]
            },
        decreases values@.len() - i,
    {
        if values[i] as i32 > best {
            best = values[i] as i32;
            found = Some(i);
        }
        i = i + 1;
    }
    found
}

/// The children of a node's value are the values of its children.
pub proof fn lemma_view_kids(n: Node)
    ensures
        n@.kids.len() == n.children@.len(),
        forall|i: int| 0 <= i < n.children@.len() ==> #[trigger] n@.kids[i] == n.children@[i]@,
{
}

/// Whether every child of `n` carries one of `moves`.
pub fn kids_listed(n: &Node, moves: &Vec<Mv>) -> (r: bool)
    ensures
        r == forall|i: int|
            0 <= i < n@.kids.len() ==> (#[trigger] n@.kids[i]).mv is Some && moves@.contains(n@.kids[i].mv->Some_0),
{
    proof {
        lemma_view_kids(*n);
    }
    let mut i: usize = 0;
    while i < n.children.len()
        invariant
            i <= n@.kids.len(),
            n@.kids.len() == n.children@.len(),
            forall|j: int| 0 <= j < n.children@.len() ==> #[trigger] n@.kids[j] == n.children@[j]@,
            forall|j: int| 0 <= j < i ==> (#[trigger] n@.kids[j]).mv is Some && moves@.contains(n@.kids[j].mv->Some_0),
        decreases n@.kids.len() - i,
    {
        assert(n@.kids[i as int].mv == n.children@[i as int].the_move);
        match n.children[i].the_move {
            None => {
                return false;
            },
            Some(m) => {
                if !contains_move(moves, m) {
                    return false;
                }
            },
        }
        i = i + 1;
    }
    true
}

impl Node {
    /// Detach and return the grandchild reached by `first` and then `second`,
    /// dropping the rest of the tree; `None` when no such path exists.
    pub fn take_grandchild(root: Node, first: Mv, second: Mv) -> (r: Option<Node>)
        ensures
            r is None <==> !exists|i: int, j: int| has_path(root@, first, second, i, j),
            r matches Some(n) ==> exists|i: int, j: int|
                has_path(root@, first, second, i, j) && n@ == #[trigger] root@.kids[i].kids[j],
    {
        let mut tree = root;
        let ghost t0 = tree@;
        proof {
            lemma_view_kids(tree);
        }
        let mut i: usize = 0;
        while i < tree.children.len()
            invariant
                tree@ == t0,
                t0 == root@,
                i <= t0.kids.len(),
                t0.kids.len() == tree.children@.len(),
                forall|a: int| 0 <= a < tree.children@.len() ==> #[trigger] t0.kids[a] == tree.children@[a]@,
                forall|a: int, b: int| 0 <= a < i ==> !has_path(t0, first, second, a, b),
            decreases t0.kids.len() - i,
        {
            if tree.children[i].the_move == Some(first) {
                proof {
                    lemma_view_kids(tree.children@[i as int]);
                }
                let mut j: usize = 0;
                while j < tree.children[i].children.len()
                    invariant
                        tree@ == t0,
                        t0 == root@,
                        i < t0.kids.len(),
                        t0.kids.len() == tree.children@.len(),
                        t0.kids[i as int] == tree.children@[i as int]@,
                        t0.kids[i as int].kids.len() == tree.children@[i as int].children@.len(),
                        forall|b: int| 0 <= b < tree.children@[i as int].children@.len() ==>
                            #[trigger] t0.kids[i as int].kids[b] == tree.children@[i as int].children@[b]@,
                        t0.kids[i as int].mv == Some(first),
                        j <= t0.kids[i as int].kids.len(),
                        forall|a: int, b: int| 0 <= a < i ==> !has_path(t0, first, second, a, b),
                        forall|b: int| 0 <= b < j ==> !has_path(t0, first, second, i as int, b),
                    decreases t0.kids[i as int].kids.len() - j,
                {
                    if tree.children[i].children[j].the_move == Some(second) {
                        let n = tree.children[i].children.swap_remove(j);
                        assert(has_path(t0, first, second, i as int, j as int) && n@ == t0.kids[i as int].kids[j as int]);
                        return Some(n);
                    }
                    j = j + 1;
                }
                assert(forall|b: int| 0 <= b < t0.kids[i as int].kids.len() ==> !has_path(t0, first, second, i as int, b));
            }
            i = i + 1;
        }
        None
    }

    /// The index of the child with the greatest propagated score, the first
    /// one on a tie; `None` when there are no children.
    pub fn best_child(tree: &Node) -> (r: Option<usize>)
        ensures
            r is None <==> tree@.kids.len() == 0,
            r matches Some(k) ==> {
                &&& k < tree@.kids.len()
                &&& forall|i: int| 0 <= i < tree@.kids.len() ==> tree@.kids[i].prop <= tree@.kids[k as int].prop
                &&& forall|i: int| 0 <= i < k ==> tree@.kids[i].prop < tree@.kids[k as int].prop
            },
    {
        proof {
            lemma_view_kids(*tree);
        }
        let mut props: Vec<i16> = Vec::new();
        let mut i: usize = 0;
        while i < tree.children.len()
            invariant
                i <= tree@.kids.len(),
                tree@.kids.len() == tree.children@.len(),
                forall|j: int| 0 <= j < tree.children@.len() ==> #[trigger] tree@.kids[j] == tree.children@[j]@,
                props@.len() == i,
                forall|j: int| 0 <= j < i ==> props@[j] == #[trigger] tree@.kids[j].prop,
            decreases tree@.kids.len() - i,
        {
            props.push(tree.children[i].propagate_score);
            i = i + 1;
        }
        let r = first_max(&props, -32769);
        if r.is_none() && props.len() > 0 {
            assert(props@[0] <= -32769);
        }
        r
    }
}

} // verus!
