pub mod param;
pub mod helpers;
pub mod heuristic;

pub mod chess;
pub mod attacks;
pub mod position;
pub mod zobrist;
pub mod stack;
pub mod key_update;
pub mod tt;
pub mod timer;
pub mod uci;
pub mod game;
pub mod nnue;
pub mod rep;
pub mod see;
pub mod movelist;
pub mod movegen;
pub mod movepick;
pub mod pick_cover;
pub mod cuckoo;
pub mod threats;
pub mod tb;
pub mod sort;
pub mod engine;
