//! Credential and session authentication core: validated credential types,
//! store abstractions with in-memory implementations, signed session tokens
//! and the login / logout / verify state machine that composes them.

pub mod data_stores;
pub mod domain;
pub mod laws;
pub mod routes;
pub mod services;
pub mod token;
