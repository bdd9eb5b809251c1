//! kyodoku: a Discord bot that opens reading rooms for books by ISBN.
//!
//! This library holds the bot's logic with its proofs: ISBN normalisation,
//! configuration, the commands and their replies, channel naming and
//! notifications, the landing posts, the archive lifecycle of text channels
//! and the activity tiers. The Discord, database, cache and HTTP plumbing
//! around it lives in the application.

pub mod text;
pub mod isbn;
pub mod clock;
pub mod config;
pub mod store;
pub mod util;
pub mod landing;
pub mod routes;
pub mod archive;
pub mod activity;
pub mod bot;
