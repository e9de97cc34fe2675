pub mod text;
pub mod extract;
pub mod auth;
pub mod request;
pub mod output;
pub mod config;
