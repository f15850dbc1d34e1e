//! Query engine for version-controlled workspaces: sanitising of untrusted
//! names and paths, revision lookup order, and classification of results.

pub mod confine;
pub mod engine;
pub mod error;
pub mod exit;
pub mod guarantees;
pub mod listing;
pub mod request;
pub mod sanitize;
pub mod scratch;
pub mod template;
pub mod text;
pub mod workspace;
