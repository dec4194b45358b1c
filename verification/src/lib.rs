//! An encrypted at-rest vault.
//!
//! Byte streams are sealed into self-describing container images: a header
//! record followed by chunk records, each an AES-256-GCM frame behind a four
//! byte little-endian length. This crate holds the cipher handle, the record
//! codec, the restore state machine and the naming rules, and proves what
//! they compute. It performs no I/O: callers hand it bytes and persist what
//! it returns.

pub mod container;
pub mod crypto;
pub mod fl_core;
pub mod mobile;
pub mod naming;
pub mod network;
pub mod restore;
pub mod sdk;
