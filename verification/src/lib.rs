//! Command-line alias expansion: configuration model, the replacement engine
//! and the decisions around it.
use vstd::prelude::*;

pub mod aka;
pub mod cfg;
pub mod daemon_client;
pub mod display;
pub mod error;
pub mod health;
pub mod name_map;
pub mod patterns;
pub mod protocol;
pub mod shell;
pub mod store;
pub mod system;
pub mod text;
pub mod timing;

verus! {

} // verus!
