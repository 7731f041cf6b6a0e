use chess::{ChessMove, Game, Square};
use chess_agents::agents::{DepthAgent, RandomAgent, SimpleAgent};
use chess_agents::board::Mv;
use chess_agents::fanout::Unit;
use chess_agents::score::Calc;
use chess_agents::tree::Node;
use std::sync::mpsc;

fn to_chess(m: Mv) -> ChessMove {
    ChessMove::new(
        chess::ALL_SQUARES[m.source as usize],
        chess::ALL_SQUARES[m.dest as usize],
        m.promotion.map(|p| chess::ALL_PIECES[p as usize]),
    )
}

fn mv(from: Square, to: Square) -> Mv {
    Mv { source: from.to_int(), dest: to.to_int(), promotion: None }
}

/// One turn of the pooled agent: reuse, build with the first new level on
/// worker threads, pick.
fn pooled_move(agent: &mut DepthAgent, pool: &threadpool::ThreadPool, game: &Game) -> Option<Mv> {
    agent.reroot(game);
    let board = game.current_position();
    let is_white = board.side_to_move() == chess::Color::White;
    let depth = agent.depth;
    let calc = agent.calc;
    let tree = agent.tree.as_mut().unwrap();
    match Node::fan_out(tree, &board, depth, is_white, &calc) {
        Some(units) => {
            let (tx, rx) = mpsc::channel();
            for unit in units {
                let tx = tx.clone();
                pool.execute(move || {
                    let u: Unit = unit;
                    tx.send(u.run(depth - 1, is_white, &calc)).unwrap();
                });
            }
            drop(tx);
            let children: Vec<Node> = rx.into_iter().collect();
            Node::adopt(tree, children);
        }
        None => Node::build_tree(tree, &board, depth, is_white, &calc),
    }
    agent.best_move()
}

#[test]
fn agent_depth_make_two_moves() {
    let mut game = Game::new();
    let calc = Calc::new();

    let mut white = DepthAgent::new(1);
    let mut black = DepthAgent::new(1);

    // Ensure a valid white and black move are made, and that their scores improve
    let mut s = calc.score_board(&game.current_position(), true);
    assert!(game.make_move(to_chess(white.make_move(&game).unwrap())));
    assert!(s <= calc.score_board(&game.current_position(), true));

    s = calc.score_board(&game.current_position(), false);
    assert!(game.make_move(to_chess(black.make_move(&game).unwrap())));
    assert!(s <= calc.score_board(&game.current_position(), false));
}

#[test]
fn agent_thread_make_two_moves() {
    let mut game = Game::new();
    let calc = Calc::new();
    let pool = threadpool::ThreadPool::new(10);

    let mut white = DepthAgent::new(1);
    let mut black = DepthAgent::new(1);

    let mut s = calc.score_board(&game.current_position(), true);
    assert!(game.make_move(to_chess(pooled_move(&mut white, &pool, &game).unwrap())));
    assert!(s <= calc.score_board(&game.current_position(), true));

    s = calc.score_board(&game.current_position(), false);
    assert!(game.make_move(to_chess(pooled_move(&mut black, &pool, &game).unwrap())));
    assert!(s <= calc.score_board(&game.current_position(), false));
}

#[test]
fn agent_simple_make_two_moves() {
    let mut game = Game::new();
    let calc = Calc::new();

    let white = SimpleAgent::new();
    let black = SimpleAgent::new();

    let mut s = calc.score_board(&game.current_position(), true);
    assert!(game.make_move(to_chess(white.make_move(&game).unwrap())));
    assert!(s <= calc.score_board(&game.current_position(), true));

    s = calc.score_board(&game.current_position(), false);
    assert!(game.make_move(to_chess(black.make_move(&game).unwrap())));
    assert!(s <= calc.score_board(&game.current_position(), false));
}

#[test]
fn agent_random_make_two_moves() {
    let mut game = Game::new();

    // Ensure a valid white and black move are made.
    assert!(game.make_move(to_chess(RandomAgent::new().make_move(&game).unwrap())));
    assert!(game.make_move(to_chess(RandomAgent::new().make_move(&game).unwrap())));
}

#[test]
fn simple_agent_takes_mate_in_one() {
    // Black to move can mate with Qh4.
    let board: chess::Board = "rnbqkbnr/pppp1ppp/8/4p3/6P1/5P2/PPPPP2P/RNBQKBNR b KQkq - 0 2".parse().unwrap();
    let game = Game::new_with_board(board);
    let agent = SimpleAgent::new();
    assert_eq!(agent.make_move(&game), Some(mv(Square::D8, Square::H4)));
}

#[test]
fn random_agent_has_nothing_on_mate() {
    let board: chess::Board = "rnb1kbnr/pppp1ppp/8/4p3/6Pq/5P2/PPPPP2P/RNBQKBNR w KQkq - 1 3".parse().unwrap();
    let game = Game::new_with_board(board);
    assert_eq!(RandomAgent::new().make_move(&game), None);
    assert_eq!(SimpleAgent::new().make_move(&game), None);
    let mut depth = DepthAgent::new(2);
    assert_eq!(depth.make_move(&game), None);
}

#[test]
fn reroot_reuses_grandchild() {
    let mut game = Game::new();
    let mut agent = DepthAgent::new(3);
    let first = agent.make_move(&game).unwrap();
    let tree = agent.tree.as_ref().unwrap();
    let child = tree.children.iter().find(|c| c.the_move == Some(first)).unwrap();
    let reply = child.children[3].the_move.unwrap();
    let expect = &child.children[3];
    let (score, prop, kids) = (expect.score, expect.propagate_score, expect.children.len());
    assert!(kids > 0);

    assert!(game.make_move(to_chess(first)));
    assert!(game.make_move(to_chess(reply)));
    agent.reroot(&game);
    let root = agent.tree.as_ref().unwrap();
    assert_eq!(root.the_move, None);
    assert_eq!(root.score, score);
    assert_eq!(root.propagate_score, prop);
    assert_eq!(root.children.len(), kids);
}

#[test]
fn reroot_falls_back_to_fresh_root() {
    let mut game = Game::new();
    assert!(game.make_move(ChessMove::new(Square::E2, Square::E4, None)));
    assert!(game.make_move(ChessMove::new(Square::D7, Square::D5, None)));
    let calc = Calc::new();
    let mut agent = DepthAgent::new(2);
    agent.reroot(&game);
    let root = agent.tree.as_ref().unwrap();
    assert!(root.children.is_empty());
    assert_eq!(root.the_move, None);
    let fresh = calc.score_board(&game.current_position(), true);
    assert_eq!(fresh, 40 - 40);
    assert_eq!(root.score, fresh);
    assert_eq!(root.propagate_score, fresh);

    // A draw offer as the last action also stops reuse.
    let mut agent = DepthAgent::new(1);
    let m = agent.make_move(&game).unwrap();
    assert!(game.make_move(to_chess(m)));
    assert!(game.offer_draw(chess::Color::Black));
    agent.reroot(&game);
    assert!(agent.tree.as_ref().unwrap().children.is_empty());
}
