//! The search: transposition table, move ordering, quiescence, alpha-beta with
//! its prunings and extensions, and iterative deepening.
pub mod alphabeta;
pub mod deepening;
pub mod depth_laws;
pub mod draw_laws;
pub mod helpers;
pub mod iterative_deepening;
pub mod mate_laws;
pub mod negamax;
pub mod ordering;
pub mod quiescence;
pub mod quiet_laws;
pub mod report;
pub mod root_laws;
pub mod selection;
pub mod shortcut_laws;
pub mod stopping;
pub mod thread_state;
pub mod timing;
pub mod tt;

pub use iterative_deepening::{iterative_deepening, RootResult};
pub use thread_state::{SearchLimits, SearchState, Signals, ThreadLocalSearch};
pub use tt::{Bound, SharedSearch, TTEntry, TranspositionTable};
