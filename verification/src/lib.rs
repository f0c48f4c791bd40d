//! Sheet-music search and delivery: the rules behind the service.

pub mod audit;
pub mod auth;
pub mod cache;
pub mod clock;
pub mod codec;
pub mod config;
pub mod email;
pub mod html;
pub mod i18n;
pub mod json;
pub mod rate_limit;
pub mod routes;
pub mod secrets;
pub mod settings;
pub mod sources;
pub mod text;
pub mod turnstile;
