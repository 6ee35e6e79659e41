//! Prompt-document core: a verified interpreter for parsed prompt documents.
//!
//! A prompt document is a parsed tree of text, embedded expressions and markup
//! tags, together with metadata declaring its title, description and argument
//! schema.  This crate renders such trees to text, segments the rendered text
//! into role-tagged messages, binds request arguments against the declared
//! schema, and compiles whole corpora of documents into a queryable collection
//! with isolated per-document failure.  Raw markup parsing, metadata
//! deserialization and the expression language itself are external
//! collaborators, reached through narrow trusted wrappers.

pub mod builder;
pub mod controller;
pub mod document;
pub mod errors;
pub mod front_matter;
pub mod prompt_document_front_matter;
pub mod registry;
pub mod rhai_components;
pub mod value;
