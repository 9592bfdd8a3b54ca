//! Domain routing: policy, resolution state, route intents and reconciliation.
pub mod policy;
pub mod intent;
pub mod resolver;
pub mod state;
pub mod runtime;
pub mod backend;
pub mod reconcile;
