pub mod api;
pub mod audit;
pub mod auth;
pub mod backends;
pub mod browsers;
pub mod config;
pub mod crypto;
pub mod docs;
pub mod error;
pub mod hits;
pub mod history;
pub mod instance;
pub mod ip;
pub mod json;
pub mod merge;
pub mod rate_limit;
pub mod security;
pub mod text;
pub mod types;
pub mod url_resolve;
pub mod urlparts;
