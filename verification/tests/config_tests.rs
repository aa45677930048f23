use sigil::config::{Config, DEFAULT_INSTRUCTIONS};
use sigil::json::Json;

fn tv(v: &toml::Value) -> Json {
    match v {
        toml::Value::String(s) => Json::Str(s.clone()),
        toml::Value::Integer(n) => Json::Int(*n),
        toml::Value::Float(f) => Json::Num(format!("{}", f)),
        toml::Value::Boolean(b) => Json::Bool(*b),
        toml::Value::Datetime(d) => Json::Str(d.to_string()),
        toml::Value::Array(items) => Json::Arr(items.iter().map(tv).collect()),
        toml::Value::Table(t) => Json::Obj(t.iter().map(|(k, x)| (k.clone(), tv(x))).collect()),
    }
}

fn parse_config(content: &str) -> Result<Config, String> {
    let value: toml::Value = toml::from_str(content).map_err(|e| e.to_string())?;
    Config::from_json(&tv(&value))
}

#[test]
fn default_contracts_dir_is_contracts_slash() {
    let config = Config::default();
    assert_eq!(config.contracts_dir, "contracts/");
}

#[test]
fn default_instructions_is_nonempty() {
    let config = Config::default();
    assert!(!config.instructions().is_empty());
    assert_eq!(config.instructions(), DEFAULT_INSTRUCTIONS);
}

#[test]
fn instructions_override_returned_when_set() {
    let config = Config {
        contracts_dir: "contracts/".to_string(),
        instructions: Some("custom instructions".to_string()),
        notes: None,
    };
    assert_eq!(config.instructions(), "custom instructions");
}

#[test]
fn parse_valid_config_toml() {
    let content = r#"contracts_dir = "custom/path/""#;
    let config = parse_config(content).unwrap();
    assert_eq!(config.contracts_dir, "custom/path/");
}

#[test]
fn parse_unknown_field_fails() {
    let content = r#"unknown_field = "value""#;
    let result = parse_config(content);
    assert!(result.is_err(), "Unknown fields must be rejected (deny_unknown_fields)");
}

#[test]
fn parse_malformed_toml_fails() {
    let content = "not valid toml ===";
    let result = parse_config(content);
    assert!(result.is_err());
}

#[test]
fn missing_contracts_dir_field_defaults_to_contracts_slash() {
    let config = parse_config("").unwrap();
    assert_eq!(config.contracts_dir, "contracts/");
}

#[test]
fn notes_kept_when_configured() {
    let config = parse_config(r#"notes = "Use snake_case for all identifiers.""#).unwrap();
    assert_eq!(config.notes, Some("Use snake_case for all identifiers.".to_string()));
}

#[test]
fn notes_absent_by_default() {
    let config = Config::default();
    assert!(config.notes.is_none(), "notes must be null when not configured");
}

#[test]
fn config_rejects_non_string_directory() {
    let result = parse_config("contracts_dir = 3");
    assert!(result.is_err());
}
