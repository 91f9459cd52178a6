//! Analysis engine for a multi-package component workspace.
//!
//! The library builds a directed dependency graph from component manifests,
//! restricts it to workspace-local references, detects circular dependencies,
//! computes per-component coupling metrics, and emits a deterministic textual
//! diagram in which cyclic edges are marked.

pub mod arguments;
pub mod circle_detector;
pub mod circular_deps_finder;
pub mod dependency_filter;
pub mod diagram_creation;
pub mod graph;
pub mod graph_creation;
pub mod manifests_collector;
pub mod mermaid_generator;
pub mod metrics;
pub mod text;
pub mod types;
