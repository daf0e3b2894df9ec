//! Verified components of a blockchain node: the pruner of its state
//! forest, the back pressure of its quorum store, the handle stores of its
//! curve arithmetic, and the module names of its query interface.

pub mod curves;
pub mod modules;
pub mod proof_manager;
pub mod pruner;
