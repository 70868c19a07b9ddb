//! Orchestration core of a peer-to-peer file hosting daemon: the commands a
//! control plane sends, the registry of hosted files, the registry of live
//! peer sessions, and the actor that applies commands to them.
pub mod ipc;
pub mod files;
pub mod sessions;
pub mod daemon;
