//! A property-based testing driver for web pages, as a verified core.
//!
//! The library linearises a noisy stream of browser debug-protocol events
//! into well-defined `(observed state, applied action)` transitions, keeps
//! an edge-coverage map over instrumented JavaScript, and incrementally
//! evaluates bounded linear-temporal-logic formulas against the observed
//! trace. All decision logic lives here, behind plain-value interfaces; a
//! driver binary supplies the browser transport and the embedded JS engine.

pub mod actions;
pub mod browser;
pub mod coverage;
pub mod instrument;
pub mod ltl;
pub mod ltl_laws;
pub mod monitor;
pub mod random;
pub mod render;
pub mod runner;
pub mod session;
pub mod source_id;
pub mod state;
pub mod strings;
pub mod trace;
pub mod tree;
pub mod url;
