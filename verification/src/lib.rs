//! Scoped, allow-only role-based access control: identifier rules, the policy
//! model and the laws it keeps, a verified in-memory store, request admission
//! and answers of the Access Control service, configuration rules, the D1
//! receipt decoders, the PostgreSQL decisions, and the agent tool catalog.

pub mod text;
pub mod storage;
pub mod identifiers;
pub mod model;
pub mod laws;
pub mod memory;
pub mod d1;
pub mod config;
pub mod service;
pub mod tools;
pub mod postgres;
