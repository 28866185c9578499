//! Conflict-free replicated table support for a relational host engine.
//!
//! Every row/column write is tagged with a per-column logical clock so that
//! edits made independently on different replicas merge deterministically
//! without coordination. The crate provides:
//!
//! - the clock data model and its well-formedness invariants ([`state`],
//!   [`values`]),
//! - the last-writer-wins merge algorithm with a deterministic value
//!   tie-break ([`merge`]),
//! - the backfill algorithm that synthesizes clock entries for rows that
//!   predate replication tracking ([`backfill`]),
//! - the change-enumeration query builder that projects the clock relation
//!   into a replicable change feed ([`changes`]),
//! - the identifier and statement builders every generated query rests on
//!   ([`ident`], [`sql`]), and the per-connection statement cache
//!   ([`stmt_cache`]),
//! - the laws the design promises — convergence, tombstone dominance,
//!   version monotonicity, backfill completeness and idempotence — proved
//!   over the same definitions the executable code is verified against
//!   ([`laws`]).
//!
//! The physical storage engine, the replication transport and the
//! pack/unpack codec for key tuples are host collaborators: the crate works
//! on an explicit model of the tracked state and emits the SQL text a host
//! executes.

pub mod backfill;
pub mod changes;
pub mod errors;
pub mod ident;
pub mod laws;
pub mod merge;
pub mod sql;
pub mod state;
pub mod stmt_cache;
pub mod values;
