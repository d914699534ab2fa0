//! Structural inspector for Rust workspaces: the analyses, their findings and
//! the reports built from them.
pub mod graph;
pub mod model;
pub mod strings;
pub mod syntax;
pub mod workspace_graph;
pub mod ast_metrics;
pub mod complexity;
pub mod churn_hotspot;
pub mod imports;
pub mod audit_bridge;
pub mod coupling;
pub mod dep_hygiene;
pub mod render;
pub mod sarif;
pub mod cli;
pub mod registry;
pub mod collect;
pub mod config;
