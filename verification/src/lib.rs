//! A store of objects on an etcd server.
//!
//! The store says what to ask the server and what its answers mean: [`store`]
//! for single objects, [`list`] for all objects under a prefix. Nothing here
//! does I/O; the caller sends the requests and hands back the answers.
//! [`requests`] states what a list asks for, and [`server`], [`changes`],
//! [`paging`], [`listing`] and [`contents`] what the requests come to on a server.

#![allow(non_snake_case)]

pub mod changes;
pub mod contents;
pub mod list;
pub mod listing;
pub mod options;
pub mod paging;
pub mod range;
pub mod requests;
pub mod server;
pub mod store;
pub mod text;
pub mod txn;
pub mod types;
