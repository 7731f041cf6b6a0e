//! Move-selection engines for chess: a piece-square evaluator, a game-tree
//! builder that averages child scores, tree reuse across turns, and agents.
pub mod board;
pub mod score;
pub mod tree;
pub mod fanout;
pub mod laws;
pub mod agents;
