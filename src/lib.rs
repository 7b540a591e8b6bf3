//! A content server core: safe path resolution, table-of-contents synthesis,
//! template-context construction and memoized Markdown rendering.

pub mod error;
pub mod resolve;
pub mod security;
pub mod text;
pub mod toc;
pub mod config;
pub mod context;
pub mod api;
pub mod cache;
pub mod render;
pub mod request;
