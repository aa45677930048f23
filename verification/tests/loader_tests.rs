use sigil::json::Json;
use sigil::loader::{load_contracts, ReadOutcome, RecordSource};

fn tv(v: &toml::Value) -> Json {
    match v {
        toml::Value::String(s) => Json::Str(s.clone()),
        toml::Value::Integer(n) => Json::Int(*n),
        toml::Value::Float(f) => Json::Num(format!("{}", f)),
        toml::Value::Boolean(b) => Json::Bool(*b),
        toml::Value::Datetime(d) => Json::Str(d.to_string()),
        toml::Value::Array(items) => Json::Arr(items.iter().map(tv).collect()),
        toml::Value::Table(t) => Json::Obj(t.iter().map(|(k, x)| (k.clone(), tv(x))).collect()),
    }
}

fn source(name: &str, content: &str) -> RecordSource {
    let outcome = match toml::from_str::<toml::Value>(content) {
        Ok(v) => ReadOutcome::Parsed(tv(&v)),
        Err(e) => ReadOutcome::ParseError(e.to_string()),
    };
    RecordSource { path: name.to_string(), outcome }
}

const VALID: &str = r#"
id = "my-contract"
version = "1.0.0"
name = "My Contract"
description = "A test contract"
"#;

#[test]
fn empty_dir_returns_nothing() {
    let (contracts, warnings) = load_contracts(&Vec::new());
    assert!(contracts.is_empty());
    assert!(warnings.is_empty());
}

#[test]
fn loads_valid_contract() {
    let sources = vec![source("my-contract.contract.toml", VALID)];
    let (contracts, warnings) = load_contracts(&sources);
    assert_eq!(contracts.len(), 1);
    assert_eq!(contracts[0].id, "my-contract");
    assert!(warnings.is_empty());
}

#[test]
fn warns_on_malformed_toml_without_crashing() {
    let sources = vec![source("bad.contract.toml", "not valid toml ===")];
    let (contracts, warnings) = load_contracts(&sources);
    assert!(contracts.is_empty(), "Malformed contract must not be loaded");
    assert!(!warnings.is_empty(), "Must warn on parse failure");
}

#[test]
fn warns_on_missing_required_fields() {
    let sources = vec![source("bad.contract.toml", r#"id = "bad""#)];
    let (contracts, warnings) = load_contracts(&sources);
    assert!(contracts.is_empty());
    assert!(!warnings.is_empty());
}

#[test]
fn ignores_non_contract_toml_files() {
    let sources = vec![
        source("README.md", "not a contract"),
        source("config.toml", "[config]\n"),
    ];
    let (contracts, warnings) = load_contracts(&sources);
    assert!(contracts.is_empty());
    assert!(warnings.is_empty());
}

#[test]
fn sorts_contracts_by_id() {
    let sources = vec![
        source(
            "z-last.contract.toml",
            "\nid = \"z-last\"\nversion = \"1.0.0\"\nname = \"Z\"\ndescription = \"Z contract\"\n",
        ),
        source(
            "a-first.contract.toml",
            "\nid = \"a-first\"\nversion = \"1.0.0\"\nname = \"A\"\ndescription = \"A contract\"\n",
        ),
    ];
    let (contracts, _) = load_contracts(&sources);
    assert_eq!(contracts.len(), 2);
    assert_eq!(contracts[0].id, "a-first");
    assert_eq!(contracts[1].id, "z-last");
}

#[test]
fn malformed_warning_names_the_file() {
    let sources = vec![source("bad.contract.toml", "not valid toml ===")];
    let (_, warnings) = load_contracts(&sources);
    assert_eq!(warnings.len(), 1);
    assert!(warnings[0].starts_with("Failed to parse bad.contract.toml: "));
}

#[test]
fn one_bad_file_does_not_abort_the_scan() {
    let sources = vec![
        source("bad.contract.toml", "not valid toml ==="),
        source("my-contract.contract.toml", VALID),
    ];
    let (contracts, warnings) = load_contracts(&sources);
    assert_eq!(contracts.len(), 1);
    assert_eq!(contracts[0].id, "my-contract");
    assert_eq!(warnings.len(), 1);
}
