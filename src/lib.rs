//! Persistence and session core of a small discussion forum: identifiers,
//! entities, the in-memory repository with its pending disk writes, the
//! document codec, and the session manager.

pub mod ids;
pub mod table;
pub mod idgen;
pub mod data;
pub mod auth;
pub mod forms;
pub mod db;
