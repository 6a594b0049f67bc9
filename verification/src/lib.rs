//! Fair-use inference scheduler: per-model concurrency gating with a
//! priority queue favouring light users, exclusive reservation windows,
//! model resolution, and the surrounding configuration and crypto helpers.

pub mod admission;
pub mod auth;
pub mod backend;
pub mod config;
pub mod crypto;
pub mod download;
pub mod fairness;
pub mod gate;
pub mod metrics;
pub mod numfmt;
pub mod queue;
pub mod reservation;
pub mod resolver;
pub mod scheduler;
pub mod settings;
pub mod time;
pub mod usage;
pub mod util;
pub mod validate;
