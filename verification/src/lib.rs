//! Coroutines as explicit state machines: the planning logic behind the
//! `#[corot]` attribute and the runtime helpers its output uses.
pub mod bindings;
pub mod effects;
pub mod error;
pub mod expand;
pub mod for_range;
pub mod inspect;
pub mod plan;
pub mod run;
pub mod runtime;
pub mod split;
pub mod state_laws;
pub mod steps;
pub mod syntax;
pub mod text;

pub use runtime::{call, iter, iter_fields, val, val_fields, SkipSerde, Step};
