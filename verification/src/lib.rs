//! A local-first coordination engine for agents.

pub mod clock;
pub mod conduct;
pub mod coordinator;
pub mod db;
pub mod env;
pub mod error;
pub mod graph;
pub mod handout;
pub mod ids;
pub mod intake;
pub mod interface;
pub mod ipc;
pub mod json;
pub mod laws;
pub mod lookups;
pub mod opening;
pub mod order;
pub mod queries;
pub mod readable;
pub mod reader;
pub mod registration;
pub mod replies;
pub mod reports;
pub mod rows;
pub mod schema;
pub mod search;
pub mod settings;
pub mod shown;
pub mod state;
pub mod text;
pub mod upgrade;
pub mod wire;
