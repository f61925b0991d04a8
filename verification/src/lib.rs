//! Application resolution and sync-reconciliation engine for previewing the
//! rendered-manifest difference between two branches of a GitOps repository.
//!
//! The library parses Kubernetes-shaped YAML documents into a typed tree,
//! classifies the documents that declare Argo CD `Application` or
//! `ApplicationSet` resources, rewrites them so they can be applied safely to
//! a throwaway cluster, filters them by annotations, label selectors and
//! changed-file watch patterns, deduplicates their names, and classifies the
//! sync states reported back by the controller.

pub mod argocd;
pub mod branch;
pub mod codec;
pub mod command;
pub mod diff;
pub mod naming;
pub mod parsing;
pub mod patterns;
pub mod reconcile;
pub mod report;
pub mod resource;
pub mod selector;
pub mod strutil;
pub mod yaml;

pub use yaml::Yaml;
pub use yaml::YamlV;
