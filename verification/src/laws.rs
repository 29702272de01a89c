//! What the operations promise, in terms of what goes in and what comes out:
//! which records change and how, what is asked of which engine, and what is
//! reported of it.

pub mod api;
pub mod components;
pub mod config;
pub mod engine;
pub mod inventory;
pub mod lists;
pub mod orchestrate;
pub mod registry;
pub mod text;
