use sigil::affected::affected_contracts;
use sigil::json::Json;
use sigil::listing::list_contracts;
use sigil::loader::{load_contracts, ReadOutcome, RecordSource};
use sigil::mutator::{
    create_collision, create_collision_message, create_missing_warnings, create_plan, diff_report,
    rename_collision, update_plan, update_schema_errors,
};
use sigil::schema::contract_shape_errors;
use sigil::session::SessionState;
use sigil::validator::{contract_error_issues, seal_report};

fn obj(fields: Vec<(&str, Json)>) -> Json {
    Json::Obj(fields.into_iter().map(|(k, v)| (k.to_string(), v)).collect())
}

fn s(text: &str) -> Json {
    Json::Str(text.to_string())
}

fn expect_err<T>(r: Result<T, String>) -> String {
    match r {
        Ok(_) => panic!("expected an error"),
        Err(e) => e,
    }
}

fn minimal_raw() -> Json {
    obj(vec![
        ("id", s("a")),
        ("version", s("1.0.0")),
        ("name", s("A")),
        ("description", s("d")),
    ])
}

#[test]
fn diff_of_identical_texts_is_the_sentinel() {
    let report = diff_report("id = \"a\"\nversion = \"1.0.0\"\n", "id = \"a\"\nversion = \"1.0.0\"\n");
    assert_eq!(report, "(no changes)");
}

#[test]
fn diff_of_changed_texts_shows_prefixed_lines() {
    let report = diff_report("old line\nsame\n", "new line\nsame\n");
    assert!(report.contains("-old line\n"));
    assert!(report.contains("+new line\n"));
    assert!(!report.contains(" same"), "equal lines are omitted");
}

#[test]
fn create_plan_derives_path_from_id() {
    let plan = create_plan(&minimal_raw(), "contracts/").unwrap();
    assert_eq!(plan.path, "contracts/a.contract.toml");
    assert_eq!(plan.contract.id, "a");
}

#[test]
fn create_plan_rejects_missing_required_field() {
    let raw = obj(vec![("id", s("a")), ("version", s("1.0.0")), ("name", s("A"))]);
    let err = expect_err(create_plan(&raw, "contracts/"));
    assert_eq!(err, "contract requires a string 'description'");
}

#[test]
fn create_plan_rejects_bad_priority() {
    let raw = obj(vec![
        ("id", s("a")),
        ("version", s("1.0.0")),
        ("name", s("A")),
        ("description", s("d")),
        ("priority", s("urgent")),
    ]);
    let err = expect_err(create_plan(&raw, "contracts/"));
    assert_eq!(err, "'priority' must be one of 'must', 'should', 'prefer'");
}

#[test]
fn create_collision_message_points_at_update() {
    let m = create_collision_message("a", "contracts/a.contract.toml");
    assert_eq!(
        m,
        "Contract 'a' already exists at 'contracts/a.contract.toml'. Use sigil_update_contract to modify it."
    );
}

#[test]
fn create_missing_warnings_never_block() {
    let paths = vec!["x.rs".to_string(), "y.rs".to_string()];
    let present = vec![false, true];
    let ws = create_missing_warnings(&paths, &present);
    assert_eq!(ws, vec!["File does not exist yet: 'x.rs'".to_string()]);
}

#[test]
fn update_replaces_top_level_fields_wholesale() {
    let base = minimal_raw();
    let updates = obj(vec![("files", Json::Arr(vec![s("only.rs")]))]);
    let plan = update_plan("a", &base, &updates, &None, "2024-01-01", "contracts/").unwrap();
    assert_eq!(plan.contract.files, Some(vec!["only.rs".to_string()]));
    assert!(!plan.renamed);
    assert_eq!(plan.new_path, "contracts/a.contract.toml");
}

#[test]
fn update_rejects_non_object_updates() {
    let base = minimal_raw();
    let err = expect_err(update_plan("a", &base, &s("nope"), &None, "2024-01-01", "contracts/"));
    assert_eq!(err, "'updates' must be a JSON object");
}

#[test]
fn update_rejects_merge_that_breaks_the_schema() {
    let base = minimal_raw();
    let updates = obj(vec![("version", Json::Int(2))]);
    let err = expect_err(update_plan("a", &base, &updates, &None, "2024-01-01", "contracts/"));
    assert_eq!(err, "contract requires a string 'version'");
}

#[test]
fn update_appends_changelog_entry() {
    let base = minimal_raw();
    let updates = obj(vec![("name", s("A2"))]);
    let msg = Some("rename things".to_string());
    let plan = update_plan("a", &base, &updates, &msg, "2024-06-30", "contracts/").unwrap();
    let log = plan.contract.changelog.expect("changelog created");
    assert_eq!(log.len(), 1);
    assert_eq!(log[0].version, "1.0.0");
    assert_eq!(log[0].date, Some("2024-06-30".to_string()));
    assert_eq!(log[0].description, "rename things");
}

#[test]
fn update_changing_id_marks_a_rename() {
    let base = minimal_raw();
    let updates = obj(vec![("id", s("b"))]);
    let plan = update_plan("a", &base, &updates, &None, "2024-01-01", "contracts/").unwrap();
    assert!(plan.renamed);
    assert_eq!(plan.new_id, "b");
    assert_eq!(plan.new_path, "contracts/b.contract.toml");
}

#[test]
fn rename_into_occupied_id_is_a_collision() {
    let base = minimal_raw();
    let updates = obj(vec![("id", s("b"))]);
    let plan = update_plan("a", &base, &updates, &None, "2024-01-01", "contracts/").unwrap();
    let collision = rename_collision(&plan, true).unwrap();
    assert_eq!(
        collision,
        "Cannot rename to 'b': a contract with that id already exists at 'contracts/b.contract.toml'."
    );
    assert!(rename_collision(&plan, false).is_none());
}

#[test]
fn unrenamed_update_never_collides() {
    let base = minimal_raw();
    let updates = obj(vec![("name", s("A2"))]);
    let plan = update_plan("a", &base, &updates, &None, "2024-01-01", "contracts/").unwrap();
    assert!(rename_collision(&plan, true).is_none());
}

#[test]
fn gate_blocks_detail_read_before_discovery() {
    let gate = SessionState::new();
    let err = gate.require_listed("sigil_get_contract", "a").unwrap_err();
    assert_eq!(
        err,
        "You must call sigil_list_contracts or sigil_get_affected_contracts before calling sigil_get_contract for 'a'."
    );
}

#[test]
fn discovery_unlocks_detail_reads_for_any_id() {
    let mut gate = SessionState::new();
    gate.mark_listed();
    assert!(gate.require_listed("sigil_get_contract", "a").is_ok());
    assert!(gate.require_listed("sigil_get_contract", "anything-else").is_ok());
}

#[test]
fn gate_blocks_update_before_detail_read() {
    let mut gate = SessionState::new();
    gate.mark_listed();
    let err = gate.require_read("sigil_update_contract", "a").unwrap_err();
    assert_eq!(
        err,
        "You must call sigil_get_contract for 'a' before calling sigil_update_contract."
    );
    gate.mark_read("a");
    assert!(gate.require_read("sigil_update_contract", "a").is_ok());
    assert!(gate.require_read("sigil_delete_contract", "b").is_err());
}

#[test]
fn end_to_end_create_list_match_validate() {
    let raw = minimal_raw();
    let plan = create_plan(&raw, "contracts/").unwrap();
    assert_eq!(plan.path, "contracts/a.contract.toml");
    let sources = vec![RecordSource {
        path: plan.path.clone(),
        outcome: ReadOutcome::Parsed(plan.canonical),
    }];
    let (contracts, load_warnings) = load_contracts(&sources);
    assert!(load_warnings.is_empty());
    let rows = list_contracts(&contracts, &None, &None);
    assert_eq!(rows.len(), 1);
    assert_eq!(rows[0].id, "a");
    let (entries, _) = affected_contracts(&contracts, &vec!["x.txt".to_string()]);
    assert_eq!(entries.len(), 0);
    let mut errors = Vec::new();
    for c in &contracts {
        let present: Vec<bool> = c.all_files().iter().map(|_| true).collect();
        let mut errs = contract_error_issues(c, &Some(c.id.clone()), &present);
        errors.append(&mut errs);
    }
    let report = seal_report(errors, Vec::new());
    assert_eq!(report.pass, true);
}

#[test]
fn extra_fields_round_trip_through_create() {
    let raw = obj(vec![
        ("id", s("a")),
        ("version", s("1.0.0")),
        ("name", s("A")),
        ("description", s("d")),
        ("custom_note", s("kept")),
    ]);
    let plan = create_plan(&raw, "contracts/").unwrap();
    assert_eq!(plan.contract.extra.len(), 1);
    assert_eq!(plan.contract.extra[0].0, "custom_note");
    match &plan.canonical {
        Json::Obj(entries) => {
            let last = entries.last().unwrap();
            assert_eq!(last.0, "custom_note");
        }
        _ => panic!("canonical form must be a table"),
    }
}

#[test]
fn shape_errors_collects_every_violation_in_field_order() {
    let raw = obj(vec![
        ("id", Json::Int(1)),
        ("version", s("1.0.0")),
        ("name", s("A")),
        ("priority", s("urgent")),
        ("tags", s("not-a-list")),
    ]);
    let violations = contract_shape_errors(&raw);
    assert_eq!(
        violations,
        vec![
            "contract requires a string 'id'".to_string(),
            "contract requires a string 'description'".to_string(),
            "'priority' must be one of 'must', 'should', 'prefer'".to_string(),
            "'tags' must be an array of strings".to_string(),
        ]
    );
}

#[test]
fn shape_errors_empty_for_a_well_shaped_record() {
    assert!(contract_shape_errors(&minimal_raw()).is_empty());
}

#[test]
fn create_into_occupied_path_is_a_collision() {
    let plan = create_plan(&minimal_raw(), "contracts/").unwrap();
    let collision = create_collision(&plan, true).unwrap();
    assert_eq!(
        collision,
        "Contract 'a' already exists at 'contracts/a.contract.toml'. Use sigil_update_contract to modify it."
    );
    let plan = create_plan(&minimal_raw(), "contracts/").unwrap();
    assert!(create_collision(&plan, false).is_none());
}

#[test]
fn update_schema_errors_lists_every_merged_violation() {
    let base = minimal_raw();
    let updates = obj(vec![("version", Json::Int(2)), ("notes", Json::Bool(true))]);
    let violations = update_schema_errors(&base, &updates, &None, "2024-01-01");
    assert_eq!(
        violations,
        vec![
            "contract requires a string 'version'".to_string(),
            "'notes' must be a string".to_string(),
        ]
    );
}

#[test]
fn find_contract_index_returns_the_first_match() {
    let sources = vec![RecordSource {
        path: "a.contract.toml".to_string(),
        outcome: ReadOutcome::Parsed(minimal_raw()),
    }];
    let (contracts, _) = load_contracts(&sources);
    assert_eq!(sigil::loader::find_contract_index(&contracts, "a"), Some(0));
    assert_eq!(sigil::loader::find_contract_index(&contracts, "b"), None);
}

#[test]
fn records_with_equal_ids_keep_scan_order() {
    let twin = |name: &str| RecordSource {
        path: format!("{name}.contract.toml"),
        outcome: ReadOutcome::Parsed(obj(vec![
            ("id", s("same")),
            ("version", s("1.0.0")),
            ("name", s(name)),
            ("description", s("d")),
        ])),
    };
    let (contracts, _) = load_contracts(&vec![twin("first"), twin("second")]);
    assert_eq!(contracts.len(), 2);
    assert_eq!(contracts[0].name, "first");
    assert_eq!(contracts[1].name, "second");
}
