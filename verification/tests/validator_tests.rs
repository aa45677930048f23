use sigil::json::Json;
use sigil::loader::{load_contracts, ReadOutcome, RecordSource};
use sigil::validator::{
    build_load_warning_issues, build_mismatch_batch, contract_error_issues, seal_report,
};

fn tv(v: &toml::Value) -> Json {
    match v {
        toml::Value::String(s) => Json::Str(s.clone()),
        toml::Value::Integer(n) => Json::Int(*n),
        toml::Value::Float(f) => Json::Num(format!("{}", f)),
        toml::Value::Boolean(b) => Json::Bool(*b),
        toml::Value::Datetime(d) => Json::Str(d.to_string()),
        toml::Value::Array(items) => Json::Arr(items.iter().map(tv).collect()),
        toml::Value::Table(t) => Json::Obj(t.iter().map(|(k, x)| (k.clone(), tv(x))).collect()),
    }
}

fn source(name: &str, content: &str) -> RecordSource {
    let outcome = match toml::from_str::<toml::Value>(content) {
        Ok(v) => ReadOutcome::Parsed(tv(&v)),
        Err(e) => ReadOutcome::ParseError(e.to_string()),
    };
    RecordSource { path: name.to_string(), outcome }
}

/// Runs the batch validation over loaded contracts, with every referenced
/// file treated as absent except those named in `existing`.
fn validate_all(
    sources: Vec<RecordSource>,
    existing: &[&str],
) -> sigil::validator::ValidationReport {
    let (contracts, load_warnings) = load_contracts(&sources);
    let mut errors = Vec::new();
    let mut warnings = build_load_warning_issues(&load_warnings);
    for c in &contracts {
        let paths = c.all_files();
        let present: Vec<bool> = paths
            .iter()
            .map(|p| existing.contains(&p.as_str()))
            .collect();
        let cid = Some(c.id.clone());
        let mut errs = contract_error_issues(c, &cid, &present);
        errors.append(&mut errs);
        let mut ws = build_mismatch_batch(c, "contracts/", true);
        warnings.append(&mut ws);
    }
    seal_report(errors, warnings)
}

#[test]
fn pass_on_empty_contracts_dir() {
    let report = validate_all(Vec::new(), &[]);
    assert_eq!(report.pass, true);
    assert!(report.errors.is_empty());
}

#[test]
fn pass_on_valid_contract() {
    let report = validate_all(
        vec![source(
            "my-contract.contract.toml",
            "\nid = \"my-contract\"\nversion = \"1.0.0\"\nname = \"My Contract\"\ndescription = \"A valid contract\"\n",
        )],
        &[],
    );
    assert_eq!(report.pass, true, "Valid contract should pass");
}

#[test]
fn fail_on_missing_referenced_file() {
    let report = validate_all(
        vec![source(
            "my-contract.contract.toml",
            "\nid = \"my-contract\"\nversion = \"1.0.0\"\nname = \"My Contract\"\ndescription = \"A contract\"\nfiles = [\"nonexistent/path.rs\"]\n",
        )],
        &[],
    );
    assert_eq!(report.pass, false);
    assert!(
        report.errors.iter().any(|e| e.kind_str() == "missing_file"),
        "Must report missing_file error"
    );
    assert!(
        report
            .errors
            .iter()
            .any(|e| e.contract_id == Some("my-contract".to_string())),
        "Error must include contract_id"
    );
}

#[test]
fn fail_on_duplicate_rule_ids() {
    let report = validate_all(
        vec![source(
            "my-contract.contract.toml",
            "\nid = \"my-contract\"\nversion = \"1.0.0\"\nname = \"My Contract\"\ndescription = \"A contract\"\n\n[[rules]]\nid = \"rule-one\"\ndescription = \"first\"\n\n[[rules]]\nid = \"rule-one\"\ndescription = \"duplicate\"\n",
        )],
        &[],
    );
    assert_eq!(report.pass, false);
    assert!(
        report.errors.iter().any(|e| e.kind_str() == "duplicate_rule_id"),
        "Must report duplicate_rule_id error"
    );
}

#[test]
fn pass_is_false_only_when_errors_present() {
    let report = validate_all(
        vec![source(
            "my-contract.contract.toml",
            "\nid = \"my-contract\"\nversion = \"1.0.0\"\nname = \"My Contract\"\ndescription = \"A contract\"\nfiles = [\"does-not-exist.rs\"]\n",
        )],
        &[],
    );
    assert_eq!(report.pass, false);
    assert!(!report.errors.is_empty());
}

#[test]
fn first_duplicate_occurrence_is_not_flagged() {
    let report = validate_all(
        vec![source(
            "dups.contract.toml",
            "id = \"dups\"\nversion = \"1.0.0\"\nname = \"dups\"\ndescription = \"d\"\n[[rules]]\nid = \"x\"\ndescription = \"a\"\n[[rules]]\nid = \"x\"\ndescription = \"b\"\n[[rules]]\nid = \"x\"\ndescription = \"c\"\n[[rules]]\nid = \"y\"\ndescription = \"d\"\n",
        )],
        &[],
    );
    let dups: Vec<_> = report
        .errors
        .iter()
        .filter(|e| e.kind_str() == "duplicate_rule_id")
        .collect();
    assert_eq!(dups.len(), 2, "Two repeats of 'x', 'y' unflagged, first 'x' unflagged");
    assert_eq!(dups[0].message, "Duplicate rule id: 'x'");
}

#[test]
fn filename_mismatch_is_a_warning_not_an_error() {
    let (contracts, _) = load_contracts(&vec![source(
        "odd-name.contract.toml",
        "id = \"other-id\"\nversion = \"1.0.0\"\nname = \"o\"\ndescription = \"d\"\n",
    )]);
    let c = &contracts[0];
    let errors = contract_error_issues(c, &Some(c.id.clone()), &Vec::new());
    let warnings = build_mismatch_batch(c, "contracts/", false);
    let report = seal_report(errors, warnings);
    assert_eq!(report.pass, true, "filename mismatch never blocks a pass");
    assert_eq!(report.warnings.len(), 1);
    assert_eq!(report.warnings[0].kind_str(), "filename_mismatch");
    assert_eq!(
        report.warnings[0].message,
        "Contract id 'other-id' has no matching file at 'contracts/other-id.contract.toml'"
    );
}

#[test]
fn load_warnings_fold_in_as_issues() {
    let report = validate_all(vec![source("bad.contract.toml", "not valid toml ===")], &[]);
    assert_eq!(report.pass, true, "load warnings never block a pass");
    assert!(report.warnings.iter().any(|w| w.kind_str() == "load_warning"));
}

#[test]
fn present_files_produce_no_missing_errors() {
    let report = validate_all(
        vec![source(
            "ok.contract.toml",
            "id = \"ok\"\nversion = \"1.0.0\"\nname = \"ok\"\ndescription = \"d\"\nfiles = [\"src/lib.rs\"]\n",
        )],
        &["src/lib.rs"],
    );
    assert_eq!(report.pass, true);
}
