//! Backup subsystem: structured backup identifiers, storage catalog
//! semantics, and the backup workflow state machine.

pub mod backup;
pub mod config;
pub mod error;
pub mod local;
pub mod naming;
pub mod remote;
pub mod storage;
pub mod store;
pub mod text;
pub mod timestamp;
