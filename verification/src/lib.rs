pub mod auth;
pub mod cache;
pub mod cli;
pub mod db;
pub mod error;
pub mod ico;
pub mod model;
