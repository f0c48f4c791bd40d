//! What the web pages decide and show.

pub mod admin;
