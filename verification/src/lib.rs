//! A verified Othello engine: bitboard game model, legal-move generation,
//! move application with flip capture, a heuristic evaluator, and a memoized
//! alpha-beta search with iterative deepening under a wall-clock budget.

pub mod board;
pub mod clock;
pub mod eval;
pub mod player;
pub mod search;
pub mod table;

pub use board::play;
pub use board::possible_plys;
pub use board::start_board;
pub use board::Board;
pub use board::Piece;
pub use board::Player;
pub use board::Ply;
pub use board::Plys;
pub use board::PlysIter;
pub use clock::instant_now;
pub use eval::static_eval;
pub use eval::MinMaxEval;
pub use eval::MinMaxResponse;
pub use player::generate_move;
pub use player::MinMaxPlayer;
pub use search::min_max;
pub use table::move_ordering;
pub use table::TranspositionEntry;
pub use table::TranspositionTable;
