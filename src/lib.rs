//! Turn-based tic-tac-toe between two remote players: the board, win
//! detection, the per-match state machine, the registry of active matches
//! and per-player statistics, and the settlement of storage deposits.

pub mod board;
pub mod refund;
pub mod registry;
pub mod session;
pub mod stats;

pub use board::{Board, Cell, Player};
pub use refund::storage_cost;
pub use registry::Contract;
pub use session::{check_if_placement_is_valid, Game, GameError, MoveOutcome, PlayerId};
pub use stats::Stats;
