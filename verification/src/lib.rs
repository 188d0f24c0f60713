pub mod access_config;
pub mod artifact_ingest;
pub mod components_catalog;
pub mod documents;
pub mod git_proxy;
pub mod insight;
pub mod json;
pub mod numbers;
pub mod text;
