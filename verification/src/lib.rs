//! Planning and bookkeeping for compile-time checked database queries:
//! the package dependency graph of a project, the minimal set of build units
//! that has to be recompiled when query metadata is regenerated, the
//! content-addressed cache of query descriptors, and the decisions of the
//! connection retry loop.

pub mod digest;
pub mod document;
pub mod graph;
pub mod ident;
pub mod json;
pub mod metadata;
pub mod offline;
pub mod prepare;
pub mod retry;
