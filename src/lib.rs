//! A colony of autonomous cells that think, plan and evolve over discrete
//! simulation cycles.
//!
//! Every fractional quantity (energy, dopamine, scores, coordinates) is
//! held in fixed point, in thousandths of a unit. The library holds the
//! colony's state and makes every decision: neighborhoods and clusters,
//! dimensional bookkeeping, memory compression, plan assembly, evolution,
//! reproduction, retries and snapshots. Callers perform the remote model
//! calls, the sleeps and the file I/O, and hand the results back.
pub mod types;
pub mod text;
pub mod parse;
pub mod labels;
pub mod ranking;
pub mod dimensional;
pub mod outside;
pub mod thought_io;
pub mod cell;
pub mod interaction;
pub mod topology;
pub mod reproduction;
pub mod colony;
pub mod planning;
pub mod state;
pub mod scheduling;
pub mod ascii_art;
pub mod animations;
