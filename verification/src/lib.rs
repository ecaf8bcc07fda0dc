//! A small quotes catalog: authors, quotes, tags, and a many-to-many
//! quote-tag association, kept in an in-memory relational store.
//!
//! The data-access layer implements pagination, joins, and get-or-create
//! semantics over four relations (`author`, `quote`, `tag`,
//! `quote_tag_association`); every operation carries a contract stating
//! exactly how it reads or rewrites the store.

pub mod data_access;
pub mod dto;
pub mod error;
pub mod laws;
pub mod model;
pub mod order;
pub mod responses;
pub mod text;
pub mod vecs;
pub mod views;
