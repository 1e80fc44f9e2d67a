//! TAR Vault Sync: the verified core of a local-first agent that keeps
//! development secrets in sync between approved sources and local targets.
pub mod browser_import;
pub mod catalogue;
pub mod compose;
pub mod cloud;
pub mod config;
pub mod desktop;
pub mod drive;
pub mod domain;
pub mod engine;
pub mod fakes;
pub mod form;
pub mod ipc;
pub mod keyvalue;
pub mod ledger;
pub mod oauth;
pub mod registry;
pub mod scheduler;
pub mod targets;
pub mod text;
pub mod vault;

use vstd::prelude::*;

verus! {

} // verus!
