//! WGSL code-generation toolkit: a domain-specific tokenizer with a growable
//! vocabulary, shape accounting and input sanitization for an encoder-decoder
//! attention model, configuration validation, and WGSL validation via naga.

pub mod config;
pub mod dataset;
pub mod lexer;
pub mod model;
pub mod persist;
pub mod tokenizer;
pub mod wgsl;

pub use config::EngineConfig;
pub use config::PathsConfig;
pub use config::TaskConfig;
pub use config::TokenizerConfig;
pub use tokenizer::WGSLTokenizer;
pub use wgsl::ChromaticTemplate;
pub use wgsl::WGSLValidator;

use vstd::prelude::*;

verus! {

/// Library version string.
pub const VERSION: &'static str = "0.1.0";

/// Error type for configuration and validation failures.
#[derive(Debug, Clone)]
pub enum Error {
    /// A configuration value was rejected; the payload describes why.
    ConfigError(String),
    /// Any other failure, described by the payload.
    Other(String),
}

impl Error {
    /// Human-readable description of the error.
    pub fn message(&self) -> (r: &String)
        ensures
            r@ == match self {
                Error::ConfigError(m) => m@,
                Error::Other(m) => m@,
            },
    {
        match self {
            Error::ConfigError(m) => m,
            Error::Other(m) => m,
        }
    }
}

} // verus!
