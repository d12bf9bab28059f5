pub mod bits;
pub mod fen;
pub mod game;
pub mod geometry;
pub mod history;
pub mod movegen;
pub mod movelist;
pub mod moveutil;
pub mod opening;
pub mod piecemove;
pub mod prevgamestate;
pub mod search;
pub mod see;
pub mod specialmove;
pub mod uci;
