use sigil::affected::{affected_contracts, combined_matches};
use sigil::json::Json;
use sigil::loader::{load_contracts, ReadOutcome, RecordSource};

fn tv(v: &toml::Value) -> Json {
    match v {
        toml::Value::String(s) => Json::Str(s.clone()),
        toml::Value::Integer(n) => Json::Int(*n),
        toml::Value::Float(f) => Json::Num(format!("{}", f)),
        toml::Value::Boolean(b) => Json::Bool(*b),
        toml::Value::Datetime(d) => Json::Str(d.to_string()),
        toml::Value::Array(items) => Json::Arr(items.iter().map(tv).collect()),
        toml::Value::Table(t) => Json::Obj(t.iter().map(|(k, x)| (k.clone(), tv(x))).collect()),
    }
}

fn source(name: &str, content: &str) -> RecordSource {
    let outcome = match toml::from_str::<toml::Value>(content) {
        Ok(v) => ReadOutcome::Parsed(tv(&v)),
        Err(e) => ReadOutcome::ParseError(e.to_string()),
    };
    RecordSource { path: name.to_string(), outcome }
}

fn with_files(id: &str, files: &[&str]) -> RecordSource {
    let list = files
        .iter()
        .map(|f| format!("\"{}\"", f))
        .collect::<Vec<_>>()
        .join(", ");
    let files_line = if files.is_empty() {
        String::new()
    } else {
        format!("files = [{list}]\n")
    };
    let content = format!(
        "id = \"{id}\"\nversion = \"1.0.0\"\nname = \"{id}\"\ndescription = \"desc\"\n{files_line}"
    );
    source(&format!("{id}.contract.toml"), &content)
}

fn with_applies_to(id: &str, pattern: &str) -> RecordSource {
    let content = format!(
        "id = \"{id}\"\nversion = \"1.0.0\"\nname = \"{id}\"\ndescription = \"desc\"\napplies_to = \"{pattern}\"\n"
    );
    source(&format!("{id}.contract.toml"), &content)
}

fn strings(items: &[&str]) -> Vec<String> {
    items.iter().map(|s| s.to_string()).collect()
}

#[test]
fn no_match_returns_empty() {
    let (contracts, _) = load_contracts(&vec![with_files("contract-a", &["src/foo.rs"])]);
    let (entries, _) = affected_contracts(&contracts, &strings(&["src/bar.rs"]));
    assert_eq!(entries.len(), 0);
}

#[test]
fn matches_by_direct_file_path() {
    let (contracts, _) = load_contracts(&vec![with_files(
        "contract-a",
        &["src/foo.rs", "src/bar.rs"],
    )]);
    let (entries, _) = affected_contracts(&contracts, &strings(&["src/foo.rs"]));
    assert_eq!(entries.len(), 1);
    assert_eq!(entries[0].summary.id, "contract-a");
    assert!(entries[0].matched.direct.contains(&"src/foo.rs".to_string()));
}

#[test]
fn direct_match_is_exact_path_no_glob_expansion() {
    let (contracts, _) = load_contracts(&vec![with_files("contract-a", &["src/foo.rs"])]);
    let (entries, _) = affected_contracts(&contracts, &strings(&["src/foo"]));
    assert_eq!(entries.len(), 0, "Direct match must be exact path comparison");
}

#[test]
fn matches_by_applies_to_glob() {
    let (contracts, _) = load_contracts(&vec![with_applies_to("contract-a", "src/**/*.rs")]);
    let (entries, _) = affected_contracts(&contracts, &strings(&["src/tools/mod.rs"]));
    assert_eq!(entries.len(), 1);
    assert!(!entries[0].matched.applies_to.is_empty());
    assert_eq!(entries[0].matched.applies_to[0].pattern, "src/**/*.rs");
    assert_eq!(
        entries[0].matched.applies_to[0].matched_files,
        vec!["src/tools/mod.rs".to_string()]
    );
}

#[test]
fn wildcard_applies_to_matches_any_file() {
    let (contracts, _) = load_contracts(&vec![with_applies_to("global-contract", "**")]);
    let (entries, _) = affected_contracts(&contracts, &strings(&["anything/at/all.txt"]));
    assert_eq!(entries.len(), 1);
}

#[test]
fn invalid_pattern_warns_and_matching_goes_on() {
    let content = "id = \"mixed\"\nversion = \"1.0.0\"\nname = \"mixed\"\ndescription = \"desc\"\napplies_to = [\"a{b\", \"**\"]\n";
    let (contracts, _) = load_contracts(&vec![source("mixed.contract.toml", content)]);
    let (entries, warnings) = affected_contracts(&contracts, &strings(&["anything.txt"]));
    assert_eq!(warnings.len(), 1);
    assert!(warnings[0].starts_with("Contract 'mixed': invalid applies_to pattern 'a{b': "));
    assert_eq!(entries.len(), 1, "The valid pattern must still match");
    assert_eq!(entries[0].matched.applies_to.len(), 1);
    assert_eq!(entries[0].matched.applies_to[0].pattern, "**");
}

#[test]
fn overlong_pattern_warns_and_is_skipped() {
    let long_pattern = "a".repeat(3000);
    let content = format!(
        "id = \"big\"\nversion = \"1.0.0\"\nname = \"big\"\ndescription = \"desc\"\napplies_to = [\"{long_pattern}\", \"**\"]\n"
    );
    let (contracts, _) = load_contracts(&vec![source("big.contract.toml", &content)]);
    let (entries, warnings) = affected_contracts(&contracts, &strings(&["anything.txt"]));
    assert_eq!(warnings.len(), 1);
    assert!(warnings[0]
        .starts_with("Contract 'big': applies_to pattern longer than 2048 characters: '"));
    assert_eq!(entries.len(), 1, "The valid pattern must still match");
    assert_eq!(entries[0].matched.applies_to.len(), 1);
    assert_eq!(entries[0].matched.applies_to[0].pattern, "**");
}

#[test]
fn backslash_candidates_are_normalized() {
    let (contracts, _) = load_contracts(&vec![with_files("contract-a", &["src/foo.rs"])]);
    let (entries, _) = affected_contracts(&contracts, &strings(&["src\\foo.rs"]));
    assert_eq!(entries.len(), 1);
    assert_eq!(entries[0].matched.direct, vec!["src/foo.rs".to_string()]);
}

#[test]
fn combined_matches_deduplicates_across_kinds() {
    let content = "id = \"both\"\nversion = \"1.0.0\"\nname = \"both\"\ndescription = \"desc\"\nfiles = [\"src/foo.rs\"]\napplies_to = \"src/**\"\n";
    let (contracts, _) = load_contracts(&vec![source("both.contract.toml", content)]);
    let (entries, _) = affected_contracts(&contracts, &strings(&["src/foo.rs", "src/bar.rs"]));
    assert_eq!(entries.len(), 1);
    let merged = combined_matches(&entries[0].matched);
    assert_eq!(merged, vec!["src/foo.rs".to_string(), "src/bar.rs".to_string()]);
}
