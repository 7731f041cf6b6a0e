use chess::Board;
use chess_agents::board::Mv;
use chess_agents::fanout::Unit;
use chess_agents::score::Calc;
use chess_agents::tree::{contains_move, first_max, mean, Node};
use std::sync::mpsc;

/// Expand `node` the way the pooled agent does: the first new level is run
/// on worker threads and gathered in arrival order.
fn parallel_build(node: &mut Node, board: &Board, depth: u8, is_white: bool, calc: &Calc) {
    match Node::fan_out(node, board, depth, is_white, calc) {
        Some(units) => {
            let pool = threadpool::ThreadPool::new(4);
            let (tx, rx) = mpsc::channel();
            for unit in units {
                let tx = tx.clone();
                let c = *calc;
                pool.execute(move || {
                    tx.send(unit.run(depth - 1, is_white, &c)).unwrap();
                });
            }
            drop(tx);
            let children: Vec<Node> = rx.into_iter().collect();
            Node::adopt(node, children);
        }
        None => Node::build_tree(node, board, depth, is_white, calc),
    }
}

fn leaf(m: u8, prop: i16) -> Node {
    Node { the_move: Some(Mv { source: m, dest: m, promotion: None }), score: 0, propagate_score: prop, children: Vec::new() }
}

#[test]
fn agent_depth_build_tree_1() {
    let board = Board::default();
    let mut node = Node::new(0);
    let calc = Calc::new();

    // Starting board has 20 opening moves, and the average move is 6
    Node::build_tree(&mut node, &board, 1, true, &calc);
    assert_eq!(node.children.len(), 20);
    assert_eq!(node.score, 0);
    assert_eq!(node.propagate_score, 6);
}

#[test]
fn agent_depth_build_tree_2() {
    let board = Board::default();
    let mut node = Node::new(0);
    let calc = Calc::new();
    Node::build_tree(&mut node, &board, 2, true, &calc);
    assert_eq!(node.children.len(), 20);
    assert_eq!(node.score, 0);
    assert_eq!(node.propagate_score, 0);
}

#[test]
fn agent_depth_build_tree_3() {
    let board = Board::default();
    let mut node = Node::new(0);
    let calc = Calc::new();
    Node::build_tree(&mut node, &board, 3, true, &calc);
    assert_eq!(node.children.len(), 20);
    assert_eq!(node.score, 0);
    assert_eq!(node.propagate_score, 6);
}

#[test]
fn agent_depth_build_tree_4() {
    let board = Board::default();
    let mut node = Node::new(0);
    let calc = Calc::new();
    Node::build_tree(&mut node, &board, 4, true, &calc);
    assert_eq!(node.children.len(), 20);
    assert_eq!(node.score, 0);
    assert_eq!(node.propagate_score, 0);
}

#[test]
fn agent_depth_build_tree_2_from_1() {
    let board = Board::default();
    let mut node = Node::new(0);
    let calc = Calc::new();

    Node::build_tree(&mut node, &board, 1, true, &calc);
    assert_eq!(node.children.len(), 20);
    assert_eq!(node.score, 0);
    assert_eq!(node.propagate_score, 6);

    Node::build_tree(&mut node, &board, 2, true, &calc);
    assert_eq!(node.children.len(), 20);
    assert_eq!(node.score, 0);
    assert_eq!(node.propagate_score, 0);
}

#[test]
fn agent_thread_build_tree_1() {
    let board = Board::default();
    let mut node = Node::new(0);
    let calc = Calc::new();
    parallel_build(&mut node, &board, 1, true, &calc);
    assert_eq!(node.children.len(), 20);
    assert_eq!(node.score, 0);
    assert_eq!(node.propagate_score, 6);
}

#[test]
fn agent_thread_build_tree_2() {
    let board = Board::default();
    let mut node = Node::new(0);
    let calc = Calc::new();
    parallel_build(&mut node, &board, 2, true, &calc);
    assert_eq!(node.children.len(), 20);
    assert_eq!(node.score, 0);
    assert_eq!(node.propagate_score, 0);
}

#[test]
fn agent_thread_build_tree_3() {
    let board = Board::default();
    let mut node = Node::new(0);
    let calc = Calc::new();
    parallel_build(&mut node, &board, 3, true, &calc);
    assert_eq!(node.children.len(), 20);
    assert_eq!(node.score, 0);
    assert_eq!(node.propagate_score, 6);
}

#[test]
fn agent_thread_build_tree_4() {
    let board = Board::default();
    let mut node = Node::new(0);
    let calc = Calc::new();
    parallel_build(&mut node, &board, 4, true, &calc);
    assert_eq!(node.children.len(), 20);
    assert_eq!(node.score, 0);
    assert_eq!(node.propagate_score, 0);
}

#[test]
fn agent_thread_build_tree_2_from_1() {
    let board = Board::default();
    let mut node = Node::new(0);
    let calc = Calc::new();

    parallel_build(&mut node, &board, 1, true, &calc);
    assert_eq!(node.children.len(), 20);
    assert_eq!(node.score, 0);
    assert_eq!(node.propagate_score, 6);

    parallel_build(&mut node, &board, 2, true, &calc);
    assert_eq!(node.children.len(), 20);
    assert_eq!(node.score, 0);
    assert_eq!(node.propagate_score, 0);
}

#[test]
fn first_level_is_mean_of_child_scores() {
    let board = Board::default();
    let mut node = Node::new(0);
    let calc = Calc::new();
    Node::build_tree(&mut node, &board, 1, true, &calc);
    let moves: Vec<Mv> = chess::MoveGen::new_legal(&board)
        .map(|m| Mv { source: m.get_source().to_int(), dest: m.get_dest().to_int(), promotion: None })
        .collect();
    assert_eq!(node.children.len(), moves.len());
    let mut sum: i32 = 0;
    for (child, m) in node.children.iter().zip(moves.iter()) {
        assert_eq!(child.the_move, Some(*m));
        assert_eq!(child.score, calc.score_move(&board, true, *m, 0));
        assert_eq!(child.propagate_score, child.score);
        assert!(child.children.is_empty());
        sum += child.score as i32;
    }
    assert_eq!(node.propagate_score as i32, sum / moves.len() as i32);
}

fn same_tree(a: &Node, b: &Node) -> bool {
    a.the_move == b.the_move
        && a.score == b.score
        && a.propagate_score == b.propagate_score
        && a.children.len() == b.children.len()
        && a.children.iter().zip(b.children.iter()).all(|(x, y)| same_tree(x, y))
}

#[test]
fn deepening_matches_direct_build() {
    let board = Board::default();
    let calc = Calc::new();
    for d in 0..3u8 {
        let mut stepwise = Node::new(0);
        Node::build_tree(&mut stepwise, &board, d, true, &calc);
        Node::build_tree(&mut stepwise, &board, d + 1, true, &calc);
        let mut direct = Node::new(0);
        Node::build_tree(&mut direct, &board, d + 1, true, &calc);
        assert!(same_tree(&stepwise, &direct));
    }
}

#[test]
fn parallel_matches_sequential() {
    let calc = Calc::new();
    let board: Board = "r1bqkbnr/pppp1ppp/2n5/4p3/4P3/5N2/PPPP1PPP/RNBQKB1R w KQkq - 2 3".parse().unwrap();
    for is_white in [true, false] {
        let mut seq = Node::new(7);
        Node::build_tree(&mut seq, &board, 2, is_white, &calc);
        let mut par = Node::new(7);
        parallel_build(&mut par, &board, 2, is_white, &calc);
        assert_eq!(seq.propagate_score, par.propagate_score);
        assert_eq!(seq.children.len(), par.children.len());
    }
}

#[test]
fn gathering_in_reverse_order_keeps_score() {
    let calc = Calc::new();
    let board = Board::default();
    let mut root = Node::new(0);
    let units: Vec<Unit> = Node::fan_out(&root, &board, 2, true, &calc).unwrap();
    assert_eq!(units.len(), 20);
    let mut children: Vec<Node> = units.iter().map(|u| u.run(1, true, &calc)).collect();
    children.reverse();
    Node::adopt(&mut root, children);
    let mut seq = Node::new(0);
    Node::build_tree(&mut seq, &board, 2, true, &calc);
    assert_eq!(root.propagate_score, seq.propagate_score);
}

#[test]
fn fan_out_declines_existing_level() {
    let calc = Calc::new();
    let board = Board::default();
    let mut node = Node::new(0);
    assert!(Node::fan_out(&node, &board, 0, true, &calc).is_none());
    Node::build_tree(&mut node, &board, 1, true, &calc);
    assert!(Node::fan_out(&node, &board, 2, true, &calc).is_none());
}

fn fools_mate() -> Board {
    "rnb1kbnr/pppp1ppp/8/4p3/6Pq/5P2/PPPPP2P/RNBQKBNR w KQkq - 1 3".parse().unwrap()
}

#[test]
fn checkmate_scores_loss_for_mated_side() {
    let calc = Calc::new();
    let mut node = Node::new(12);
    Node::build_tree(&mut node, &fools_mate(), 3, true, &calc);
    assert_eq!(node.propagate_score, -1000);
    assert_eq!(node.score, 12);
    assert!(node.children.is_empty());
}

#[test]
fn checkmate_scores_win_for_other_side() {
    let calc = Calc::new();
    let mut node = Node::new(12);
    Node::build_tree(&mut node, &fools_mate(), 0, false, &calc);
    assert_eq!(node.propagate_score, 1000);
}

#[test]
fn stalemate_keeps_own_score() {
    let calc = Calc::new();
    let board: Board = "7k/5Q2/6K1/8/8/8/8/8 b - - 0 1".parse().unwrap();
    let mut node = Node::new(-17);
    node.propagate_score = 99;
    Node::build_tree(&mut node, &board, 2, true, &calc);
    assert_eq!(node.propagate_score, -17);
}

#[test]
fn mean_truncates_toward_zero() {
    assert_eq!(mean(7, 2), 3);
    assert_eq!(mean(-7, 2), -3);
    assert_eq!(mean(-32768 * 3, 3), -32768);
    assert_eq!(mean(0, 5), 0);
}

#[test]
fn best_child_takes_first_greatest() {
    let mut root = Node::new(0);
    assert_eq!(Node::best_child(&root), None);
    root.children = vec![leaf(1, 3), leaf(2, 7), leaf(3, 7), leaf(4, -1000)];
    assert_eq!(Node::best_child(&root), Some(1));
    root.children = vec![leaf(1, -2000), leaf(2, -3000)];
    assert_eq!(Node::best_child(&root), Some(0));
}

#[test]
fn first_max_respects_floor() {
    assert_eq!(first_max(&vec![], 0), None);
    assert_eq!(first_max(&vec![-5, -1000, -3], -1000), Some(2));
    assert_eq!(first_max(&vec![-1000, -1001], -1000), None);
}

#[test]
fn take_grandchild_finds_path() {
    let mut root = Node::new(0);
    let mut a = leaf(1, 10);
    a.children = vec![leaf(5, 11), leaf(6, 12)];
    let mut b = leaf(2, 20);
    b.children = vec![leaf(6, 21)];
    root.children = vec![a, b];
    let m = |x: u8| Mv { source: x, dest: x, promotion: None };
    let found = Node::take_grandchild(root, m(2), m(6)).unwrap();
    assert_eq!(found.propagate_score, 21);

    let mut root = Node::new(0);
    let mut a = leaf(1, 10);
    a.children = vec![leaf(5, 11)];
    root.children = vec![a];
    assert!(Node::take_grandchild(root, m(1), m(6)).is_none());
}

#[test]
fn contains_move_checks_membership() {
    let moves: Vec<Mv> = chess::MoveGen::new_legal(&Board::default())
        .map(|m| Mv { source: m.get_source().to_int(), dest: m.get_dest().to_int(), promotion: None })
        .collect();
    let e2e4 = Mv { source: chess::Square::E2.to_int(), dest: chess::Square::E4.to_int(), promotion: None };
    let e2e5 = Mv { source: chess::Square::E2.to_int(), dest: chess::Square::E5.to_int(), promotion: None };
    assert!(contains_move(&moves, e2e4));
    assert!(!contains_move(&moves, e2e5));
}
