use sigil::json::Json;
use sigil::listing::list_contracts;
use sigil::loader::{load_contracts, ReadOutcome, RecordSource};

fn tv(v: &toml::Value) -> Json {
    match v {
        toml::Value::String(s) => Json::Str(s.clone()),
        toml::Value::Integer(n) => Json::Int(*n),
        toml::Value::Float(f) => Json::Num(format!("{}", f)),
        toml::Value::Boolean(b) => Json::Bool(*b),
        toml::Value::Datetime(d) => Json::Str(d.to_string()),
        toml::Value::Array(items) => Json::Arr(items.iter().map(tv).collect()),
        toml::Value::Table(t) => Json::Obj(t.iter().map(|(k, x)| (k.clone(), tv(x))).collect()),
    }
}

fn contract_source(id: &str, domain: Option<&str>, tags: &[&str]) -> RecordSource {
    let domain_line = domain
        .map(|d| format!("domain = \"{d}\"\n"))
        .unwrap_or_default();
    let tags_line = if tags.is_empty() {
        String::new()
    } else {
        let list = tags
            .iter()
            .map(|t| format!("\"{}\"", t))
            .collect::<Vec<_>>()
            .join(", ");
        format!("tags = [{list}]\n")
    };
    let content = format!(
        "id = \"{id}\"\nversion = \"1.0.0\"\nname = \"{id}\"\ndescription = \"desc\"\n{domain_line}{tags_line}"
    );
    let outcome = match toml::from_str::<toml::Value>(&content) {
        Ok(v) => ReadOutcome::Parsed(tv(&v)),
        Err(e) => ReadOutcome::ParseError(e.to_string()),
    };
    RecordSource { path: format!("{id}.contract.toml"), outcome }
}

fn tag_filter(tags: &[&str]) -> Option<Vec<String>> {
    Some(tags.iter().map(|t| t.to_string()).collect())
}

#[test]
fn returns_all_when_no_filter() {
    let (contracts, _) = load_contracts(&vec![
        contract_source("contract-a", Some("core"), &["tag1"]),
        contract_source("contract-b", Some("tools"), &["tag2"]),
    ]);
    let rows = list_contracts(&contracts, &None, &None);
    assert_eq!(rows.len(), 2);
}

#[test]
fn filters_by_domain_exact_match() {
    let (contracts, _) = load_contracts(&vec![
        contract_source("contract-a", Some("core"), &[]),
        contract_source("contract-b", Some("tools"), &[]),
    ]);
    let rows = list_contracts(&contracts, &Some("core".to_string()), &None);
    assert_eq!(rows.len(), 1);
    assert_eq!(rows[0].id, "contract-a");
}

#[test]
fn domain_filter_is_case_sensitive() {
    let (contracts, _) = load_contracts(&vec![contract_source("contract-a", Some("Core"), &[])]);
    let rows = list_contracts(&contracts, &Some("core".to_string()), &None);
    assert_eq!(rows.len(), 0, "Domain filter must be case-sensitive");
}

#[test]
fn filters_by_tags_uses_or_logic() {
    let (contracts, _) = load_contracts(&vec![
        contract_source("contract-a", None, &["alpha", "beta"]),
        contract_source("contract-b", None, &["gamma"]),
        contract_source("contract-c", None, &["delta"]),
    ]);
    let rows = list_contracts(&contracts, &None, &tag_filter(&["alpha", "gamma"]));
    assert_eq!(rows.len(), 2, "Tag filter must use OR logic");
}

#[test]
fn combined_domain_and_tags_both_must_match() {
    let (contracts, _) = load_contracts(&vec![
        contract_source("contract-a", Some("core"), &["mcp"]),
        contract_source("contract-b", Some("tools"), &["mcp"]),
    ]);
    let rows = list_contracts(&contracts, &Some("core".to_string()), &tag_filter(&["mcp"]));
    assert_eq!(rows.len(), 1, "Combined filters require AND logic");
    assert_eq!(rows[0].id, "contract-a");
}

#[test]
fn summary_carries_file_count_and_trigger_type() {
    let content = "id = \"rich\"\nversion = \"1.0.0\"\nname = \"rich\"\ndescription = \"desc\"\nfiles = [\"a.rs\", \"b.rs\"]\n[trigger]\ntype = \"manual\"\n";
    let outcome = match toml::from_str::<toml::Value>(content) {
        Ok(v) => ReadOutcome::Parsed(tv(&v)),
        Err(e) => ReadOutcome::ParseError(e.to_string()),
    };
    let (contracts, warnings) = load_contracts(&vec![RecordSource {
        path: "rich.contract.toml".to_string(),
        outcome,
    }]);
    assert!(warnings.is_empty());
    let rows = list_contracts(&contracts, &None, &None);
    assert_eq!(rows.len(), 1);
    assert_eq!(rows[0].file_count, 2);
    assert_eq!(rows[0].trigger_type, Some("manual".to_string()));
}
