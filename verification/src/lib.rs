//! A declarative request-pipeline server core: manifest structures, the
//! value-resolution language of manifests, store mappings and the decisions
//! taken around each pipeline step.
pub mod text;
pub mod json;
pub mod json_text;
pub mod pointer;
pub mod users;
pub mod errors;
pub mod resolver;
pub mod manifest;
pub mod manifest_wrapper;
pub mod wasm;
pub mod fetch;
pub mod routing;
pub mod workspace;
pub mod validation;
