//! Configuration types and their validation.
//!
//! File loading and saving live outside the library; the types here hold
//! the values the rest of the library reads, and `EngineConfig::validate`
//! states exactly which configurations are accepted.

use vstd::prelude::*;

verus! {

use vstd::string::StringExecFns;
use crate::Error;

/// Default feed-forward width.
pub fn default_dim_feedforward() -> (r: usize)
    ensures
        r == 2048,
{
    2048
}

/// Default maximum sequence length for the model.
pub fn default_max_seq_len() -> (r: usize)
    ensures
        r == 512,
{
    512
}

/// Default optimizer name.
pub fn default_optimizer() -> (r: String)
    ensures
        r@ == "adamw"@,
{
    "adamw".to_string()
}

/// Default for flags that start enabled.
pub fn default_true() -> (r: bool)
    ensures
        r,
{
    true
}

/// Default early-stopping patience.
pub fn default_patience() -> (r: usize)
    ensures
        r == 10,
{
    10
}

/// Default checkpoint interval, in epochs.
pub fn default_save_every() -> (r: usize)
    ensures
        r == 10,
{
    10
}

/// Default tokenizer kind.
pub fn default_tokenizer_type() -> (r: String)
    ensures
        r@ == "wgsl"@,
{
    "wgsl".to_string()
}

/// Default maximum token-sequence length for the tokenizer.
pub fn default_max_length() -> (r: usize)
    ensures
        r == 512,
{
    512
}

/// Default minimum token frequency for vocabulary fitting.
pub fn default_min_freq() -> (r: usize)
    ensures
        r == 1,
{
    1
}

/// Default logging level.
pub fn default_log_level() -> (r: String)
    ensures
        r@ == "INFO"@,
{
    "INFO".to_string()
}

/// Default log output directory.
pub fn default_log_path() -> (r: String)
    ensures
        r@ == "logs/"@,
{
    "logs/".to_string()
}

/// Default journal output directory.
pub fn default_journal_path() -> (r: String)
    ensures
        r@ == "journals/"@,
{
    "journals/".to_string()
}

/// Default checkpoint output directory.
pub fn default_checkpoint_path() -> (r: String)
    ensures
        r@ == "checkpoints/"@,
{
    "checkpoints/".to_string()
}

/// Task-level configuration.
#[derive(Debug, Clone)]
pub struct TaskConfig {
    /// Task name.
    pub name: String,
    /// Task kind.
    pub task_type: String,
    /// Free-form description.
    pub description: String,
}

/// Tokenizer configuration.
#[derive(Debug, Clone)]
pub struct TokenizerConfig {
    /// Tokenizer kind.
    pub tokenizer_type: String,
    /// Maximum token-sequence length.
    pub max_length: usize,
    /// Whether input text is lowercased.
    pub lowercase: bool,
    /// Minimum frequency for vocabulary fitting.
    pub min_freq: usize,
}

/// Output path configuration.
#[derive(Debug, Clone)]
pub struct PathsConfig {
    /// Log file output directory.
    pub log_path: String,
    /// Journal file output directory.
    pub journal_path: String,
    /// Checkpoint file output directory.
    pub checkpoint_path: String,
}

impl PathsConfig {
    /// The default output paths.
    pub fn default() -> (r: Self)
        ensures
            r.log_path@ == "logs/"@,
            r.journal_path@ == "journals/"@,
            r.checkpoint_path@ == "checkpoints/"@,
    {
        PathsConfig {
            log_path: "logs/".to_string(),
            journal_path: "journals/".to_string(),
            checkpoint_path: "checkpoints/".to_string(),
        }
    }
}

/// Engine configuration for the production environment.
#[derive(Debug, Clone)]
pub struct EngineConfig {
    /// Global logging level.
    pub log_level: String,
    /// Disable debug assertions in production.
    pub disable_debug_assertions: bool,
    /// Output paths.
    pub paths: PathsConfig,
}

/// Whether a logging level is one of the recognized names.
pub open spec fn valid_log_level(s: Seq<char>) -> bool {
    s == "DEBUG"@ || s == "INFO"@ || s == "WARN"@ || s == "ERROR"@
}

/// The message given for a rejected logging level.
pub open spec fn bad_level_message(level: Seq<char>) -> Seq<char> {
    "Invalid log_level '"@ + level + "'. Must be one of: DEBUG, INFO, WARN, ERROR"@
}

impl EngineConfig {
    /// The default engine configuration.
    pub fn default() -> (r: Self)
        ensures
            r.log_level@ == "INFO"@,
            !r.disable_debug_assertions,
            r.paths.log_path@ == "logs/"@,
            r.paths.journal_path@ == "journals/"@,
            r.paths.checkpoint_path@ == "checkpoints/"@,
    {
        EngineConfig {
            log_level: "INFO".to_string(),
            disable_debug_assertions: false,
            paths: PathsConfig::default(),
        }
    }

    /// Accepts exactly the configurations with a recognized logging level
    /// and non-empty output paths; the first offending field decides the
    /// error.
    pub fn validate(&self) -> (r: Result<(), Error>)
        ensures
            r is Ok <==> (valid_log_level(self.log_level@) && self.paths.log_path@.len() > 0
                && self.paths.journal_path@.len() > 0 && self.paths.checkpoint_path@.len() > 0),
            r is Err ==> (r->Err_0 matches Error::ConfigError(m) && m@ == (
            if !valid_log_level(self.log_level@) {
                bad_level_message(self.log_level@)
            } else if self.paths.log_path@.len() == 0 {
                "log_path cannot be empty"@
            } else if self.paths.journal_path@.len() == 0 {
                "journal_path cannot be empty"@
            } else {
                "checkpoint_path cannot be empty"@
            })),
    {
        let ok = self.log_level == "DEBUG".to_string() || self.log_level == "INFO".to_string()
            || self.log_level == "WARN".to_string() || self.log_level == "ERROR".to_string();
        if !ok {
            let msg = "Invalid log_level '".to_string().concat(self.log_level.as_str()).concat(
                "'. Must be one of: DEBUG, INFO, WARN, ERROR",
            );
            return Err(Error::ConfigError(msg));
        }
        if self.paths.log_path.as_str().unicode_len() == 0 {
            return Err(Error::ConfigError("log_path cannot be empty".to_string()));
        }
        if self.paths.journal_path.as_str().unicode_len() == 0 {
            return Err(Error::ConfigError("journal_path cannot be empty".to_string()));
        }
        if self.paths.checkpoint_path.as_str().unicode_len() == 0 {
            return Err(Error::ConfigError("checkpoint_path cannot be empty".to_string()));
        }
        Ok(())
    }
}

} // verus!
