//! A library for managing SSH client configuration files: a format-preserving
//! parser and serializer for the `Host`-block syntax, and the application
//! state machine that mediates all mutations to the in-memory host registry
//! (navigation, search filtering, form editing, and add/edit/delete commits
//! with rollback on persistence failure).

pub mod app_state;
pub mod config;
pub mod host;
pub mod laws;
pub mod repository;
pub mod service;
pub mod text;
pub mod theme;
