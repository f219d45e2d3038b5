//! A static site generator's document core: a chain of verified rewriters over
//! a stream of structural document events, plus the small text helpers,
//! value types and page fragments that the site build needs.
pub mod event;
pub mod text;
pub mod markup;
pub mod transform;
pub mod types;
pub mod config;
pub mod templates;
pub mod front_matter;
pub mod header;
pub mod article;
pub mod feed;
pub mod watch;
