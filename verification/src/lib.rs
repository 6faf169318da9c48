//! Verified core of the Horizon Atlas game-server proxy.

pub mod bytes;
pub mod client;
pub mod clock;
pub mod cluster;
pub mod compression;
pub mod config;
pub mod crypto;
pub mod discovery;
pub mod encryption;
pub mod error;
pub mod errors;
pub mod game_server;
pub mod health;
pub mod ids;
pub mod json;
pub mod metrics;
pub mod persistence;
pub mod proxy;
pub mod regions;
pub mod routing;
pub mod scalar;
pub mod sealing;
pub mod search;
pub mod server;
pub mod server_manager;
pub mod skim;
pub mod spatial;
pub mod state;
pub mod table;
pub mod text;
pub mod transfer;
pub mod transitions;
pub mod types;
