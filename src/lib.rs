pub mod commands;
pub mod drivers;
pub mod hub;
pub mod index;
pub mod laws;
pub mod logging;
pub mod merge;
pub mod models;
pub mod replay;
pub mod signalr;
pub mod state_service;
pub mod supervisor;
pub mod tree;
