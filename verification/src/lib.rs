//! Access-control and user-resource-storage core of a retro-game library
//! service: credential and token lifecycle, per-user save-state slots, and
//! a catalog reconciliation scan, all specified against in-memory models of
//! the persistence and blob collaborators.

pub mod account;
pub mod auth_service;
pub mod config;
pub mod errors;
pub mod games;
pub mod guard;
pub mod ids;
pub mod password;
pub mod saves;
pub mod sql;
pub mod text;
pub mod tokens;
pub mod users;
