//! Network core of a game ship server: the per-block connection dispatcher
//! and the request/response channel to the master ship, with the account
//! login decisions, chat command arguments, symbol art slots, storage boxes
//! and the data assembly steps of the content compiler.

pub mod account;
pub mod block;
pub mod chat;
pub mod content;
pub mod inventory;
pub mod master;
pub mod symbolart;
