//! A static-site build engine for blogs: front-matter parsing, a content
//! repository with chronological, per-tag and per-year indices, pagination,
//! and the derivation of output routes and render contexts.
pub mod text;
pub mod date;
pub mod front_matter;
pub mod article;
pub mod repository;
pub mod paginator;
pub mod path;
pub mod converter;
pub mod config;
pub mod layout;
pub mod page;
pub mod partial;
pub mod code;
pub mod resource;
pub mod blog;
pub mod template_generator;
pub mod initializer;
pub mod view_helper;
