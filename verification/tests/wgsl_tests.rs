use tiny_agent_trainer::wgsl::ChromaticTemplate;
use tiny_agent_trainer::WGSLValidator;

#[test]
fn test_version() {
    assert!(!tiny_agent_trainer::VERSION.is_empty());
}

#[test]
fn test_validator_creation() {
    let validator = WGSLValidator::new();
    assert!(validator.show_warnings);
}

#[test]
fn test_valid_wgsl() {
    let validator = WGSLValidator::new();
    let code = r#"
        @fragment
        fn main() -> @location(0) vec4<f32> {
            return vec4<f32>(1.0, 0.0, 0.0, 1.0);
        }
    "#;

    let result = validator.validate(code).unwrap();
    assert!(result.is_valid);
}

#[test]
fn test_invalid_wgsl() {
    let validator = WGSLValidator::new();
    let code = "this is not valid WGSL code!!!";

    let result = validator.validate(code).unwrap();
    assert!(!result.is_valid);
    assert!(!result.errors.is_empty());
}

#[test]
fn test_chromatic_templates() {
    let validator = WGSLValidator::new();

    for (name, template) in [
        ("mix", ChromaticTemplate::mix()),
        ("filter", ChromaticTemplate::filter()),
        ("complement", ChromaticTemplate::complement()),
        ("saturate", ChromaticTemplate::saturate()),
    ] {
        let result = validator.validate(&template).unwrap();
        assert!(result.is_valid, "Template '{}' should be valid", name);
    }
}
