use tiny_agent_trainer::{EngineConfig, PathsConfig};

#[test]
fn test_engine_default_is_valid() {
    let config = EngineConfig::default();
    assert_eq!(config.log_level, "INFO");
    assert!(!config.disable_debug_assertions);
    assert!(config.validate().is_ok());
}

#[test]
fn test_validate_rejects_unknown_level() {
    let mut config = EngineConfig::default();
    config.log_level = "CHATTY".to_string();
    let err = config.validate().unwrap_err();
    assert_eq!(
        err.message(),
        "Invalid log_level 'CHATTY'. Must be one of: DEBUG, INFO, WARN, ERROR"
    );
}

#[test]
fn test_validate_rejects_empty_paths() {
    let mut config = EngineConfig::default();
    config.paths.log_path = String::new();
    assert_eq!(config.validate().unwrap_err().message(), "log_path cannot be empty");

    let mut config = EngineConfig::default();
    config.paths.journal_path = String::new();
    assert_eq!(
        config.validate().unwrap_err().message(),
        "journal_path cannot be empty"
    );

    let mut config = EngineConfig::default();
    config.paths.checkpoint_path = String::new();
    assert_eq!(
        config.validate().unwrap_err().message(),
        "checkpoint_path cannot be empty"
    );
}

#[test]
fn test_paths_default() {
    let paths = PathsConfig::default();
    assert_eq!(paths.log_path, "logs/");
    assert_eq!(paths.journal_path, "journals/");
    assert_eq!(paths.checkpoint_path, "checkpoints/");
}

#[test]
fn test_level_accepts_each_name() {
    for level in ["DEBUG", "INFO", "WARN", "ERROR"] {
        let mut config = EngineConfig::default();
        config.log_level = level.to_string();
        assert!(config.validate().is_ok(), "level {}", level);
    }
    let mut config = EngineConfig::default();
    config.log_level = "info".to_string();
    assert!(config.validate().is_err());
}
