//! Requirements-model diagrams and reports: Mermaid diagrams of the
//! elements of each section of each document, the rewrite of those
//! diagrams into the documents, filtered model summaries with their Cypher
//! rendering, and the verification coverage report.
pub mod text;
pub mod markdown;
pub mod model;
pub mod error;
pub mod diagrams;
pub mod outside;
pub mod filters;
pub mod reports;
pub mod updates;
pub mod render;
pub mod regenerate;
pub mod nodes;
