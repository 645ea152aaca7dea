//! The credential and visibility core of a personal catalog of command
//! snippets: bearer tokens, device codes, registration and login, and the
//! owner-scoped catalog.
//!
//! The library decides; it does no input or output. A request is handled
//! against a `store::Store`, which holds the rows that the request can
//! touch, and every handler says in its contract what it returns and how it
//! changes the store, as a function on `state::State`, the mathematical
//! model of the tables. What follows from those functions for every state
//! is proved beside them: a private command is never shown to a stranger, a
//! device code is redeemed at most once and only before it expires, an
//! email registers once, a page total does not depend on the window, a tag
//! is stored once and associated once with a command.
//!
//! What the library takes from other crates stands in `platform` and
//! `text`, behind contracts that are assumed.
pub mod text;
pub mod platform;
pub mod errors;
pub mod models;
pub mod seqs;
pub mod state;
pub mod store;
pub mod auth;
pub mod device;
pub mod accounts;
pub mod order;
pub mod catalog;
pub mod learned;
pub mod health;
pub mod routes;
