//! The update engine: creating a record (schema first, then a collision
//! check), the read-merge-validate-write cycle of an update with its
//! optional change-log append and rename handling, and the line diff
//! reported back, with its fixed no-changes sentinel.
use vstd::prelude::*;

use crate::json::{Json, JsonV, jv, jv_list, jv_entries, ov_get, ov_set, ov_merge, json_clone,
    obj_merge, str_eq, lemma_jv_entries_index, lemma_jv_list_index};
use crate::model::{Contract, contract_v, strs_view, lemma_strs_view_push};
use crate::schema::{shape_error, schema_ok, contract_of, contract_from_json, contract_to_json,
    canon_json, field_of};
use crate::validator::{expected_path, expected_path_v};

verus! {

/// Relies on chrono::Local::now and NaiveDate's rendering: the current
/// calendar date as text. Nothing is promised of the value: it depends on
/// the clock. (chrono aborts when the system clock reads before 1970; that
/// depends on the environment, not on any input of this crate.)
#[verifier::external_body]
fn today_string() -> String {
    chrono::Local::now().date_naive().to_string()
}

/// The line-by-line comparison of two texts: for each emitted change, a
/// tag (0 removal, 1 insertion, 2 unchanged) and the line itself.
pub uninterp spec fn diff_of(old_text: Seq<char>, new_text: Seq<char>) -> Seq<(u8, Seq<char>)>;

/// Relies on similar's TextDiff::from_lines, iter_all_changes, Change::tag
/// and the Change text: the change list is a function of the two texts
/// alone, and two equal texts produce only unchanged lines (the diff of a
/// text against itself reduces to one common prefix).
#[verifier::external_body]
fn diff_changes(old_text: &str, new_text: &str) -> (r: Vec<(u8, String)>)
    ensures
        r@.map_values(|p: (u8, String)| (p.0, p.1@)) == diff_of(old_text@, new_text@),
        old_text@ == new_text@ ==> forall|i: int| 0 <= i < r@.len() ==> (#[trigger] r@[i]).0
            == 2,
{
    similar::TextDiff::from_lines(old_text, new_text)
        .iter_all_changes()
        .map(|c| {
            let tag: u8 = match c.tag() {
                similar::ChangeTag::Delete => 0,
                similar::ChangeTag::Insert => 1,
                similar::ChangeTag::Equal => 2,
            };
            (tag, c.to_string())
        })
        .collect()
}

/// The single-character prefix of a change tag.
pub open spec fn tag_prefix(tag: u8) -> Seq<char> {
    if tag == 0 {
        "-"@
    } else if tag == 1 {
        "+"@
    } else {
        " "@
    }
}

/// The diff body: removals and insertions with their prefixes, unchanged
/// lines omitted.
pub open spec fn diff_body(cs: Seq<(u8, Seq<char>)>) -> Seq<char>
    decreases cs,
{
    if cs.len() == 0 {
        Seq::empty()
    } else {
        diff_body(cs.drop_last()) + if cs.last().0 == 2 {
            Seq::<char>::empty()
        } else {
            tag_prefix(cs.last().0) + cs.last().1
        }
    }
}

/// The reported diff: the body, or the fixed no-changes sentinel instead
/// of an empty text.
pub open spec fn rendered_diff(cs: Seq<(u8, Seq<char>)>) -> Seq<char> {
    if diff_body(cs).len() == 0 {
        "(no changes)"@
    } else {
        diff_body(cs)
    }
}

/// A change list of only unchanged lines has an empty body.
proof fn lemma_all_equal_body(cs: Seq<(u8, Seq<char>)>)
    requires
        forall|i: int| 0 <= i < cs.len() ==> (#[trigger] cs[i]).0 == 2,
    ensures
        diff_body(cs).len() == 0,
    decreases cs,
{
    if cs.len() > 0 {
        lemma_all_equal_body(cs.drop_last());
    }
}

/// Renders the line diff of two texts; two equal texts always report the
/// no-changes sentinel, never an empty string.
pub fn diff_report(old_text: &str, new_text: &str) -> (r: String)
    ensures
        r@ == rendered_diff(diff_of(old_text@, new_text@)),
        old_text@ == new_text@ ==> r@ == "(no changes)"@,
{
    let changes = diff_changes(old_text, new_text);
    let ghost cs = diff_of(old_text@, new_text@);
    let ghost cm = changes@.map_values(|p: (u8, String)| (p.0, p.1@));
    let mut body = String::new();
    let mut i: usize = 0;
    while i < changes.len()
        invariant
            i <= changes@.len(),
            cm == changes@.map_values(|p: (u8, String)| (p.0, p.1@)),
            cm == cs,
            cm.len() == changes@.len(),
            body@ =~= diff_body(cs.take(i as int)),
        decreases changes@.len() - i,
    {
        proof {
            assert(cs.take(i + 1).drop_last() =~= cs.take(i as int));
            assert(cs.take(i + 1).last() == cs[i as int]);
            assert(cs[i as int] == (changes@[i as int].0, changes@[i as int].1@));
        }
        let tag = changes[i].0;
        if tag != 2 {
            if tag == 0 {
                body.append("-");
            } else if tag == 1 {
                body.append("+");
            } else {
                body.append(" ");
            }
            body.append(changes[i].1.as_str());
            proof {
                assert(body@ =~= diff_body(cs.take(i + 1)));
            }
        } else {
            proof {
                assert(body@ =~= diff_body(cs.take(i + 1)));
            }
        }
        i = i + 1;
    }
    proof {
        assert(cs.take(cs.len() as int) =~= cs);
    }
    if body.as_str().unicode_len() == 0 {
        String::from_str("(no changes)")
    } else {
        proof {
            if old_text@ == new_text@ {
                lemma_all_equal_body(cs);
            }
        }
        body
    }
}

/// The collision error of a create whose id already has a file.
pub open spec fn create_collision_v(id: Seq<char>, path: Seq<char>) -> Seq<char> {
    "Contract '"@ + id + "' already exists at '"@ + path
        + "'. Use sigil_update_contract to modify it."@
}

/// Builds the collision error of a create.
pub fn create_collision_message(id: &str, path: &str) -> (r: String)
    ensures
        r@ == create_collision_v(id@, path@),
{
    let mut m = String::from_str("Contract '");
    m.append(id);
    m.append("' already exists at '");
    m.append(path);
    m.append("'. Use sigil_update_contract to modify it.");
    m
}

/// Decides whether a planned create collides: exactly when a file already
/// sits at the id's conventional path. A collision blocks the create
/// before anything is written.
pub fn create_collision(plan: &CreatePlan, path_exists: bool) -> (r: Option<String>)
    ensures
        r is Some <==> path_exists,
        r matches Some(m) ==> m@ == create_collision_v(contract_v(plan.contract).id, plan.path@),
{
    if path_exists {
        Some(create_collision_message(plan.contract.id.as_str(), plan.path.as_str()))
    } else {
        None
    }
}

/// What a create will write, once the caller has checked the target path.
pub struct CreatePlan {
    pub contract: Contract,
    pub canonical: Json,
    pub path: String,
}

/// Plans a create: the raw value is validated against the record grammar
/// before anything else; a well-shaped value yields the typed record, its
/// canonical form, and the conventional path the caller must check and
/// write.
pub fn create_plan(raw: &Json, contracts_dir: &str) -> (r: Result<CreatePlan, String>)
    ensures
        r is Ok <==> schema_ok(jv(*raw)),
        r matches Err(m) ==> Some(m@) == shape_error(jv(*raw)),
        r matches Ok(p) ==> {
            &&& contract_v(p.contract) == contract_of(jv(*raw))
            &&& jv(p.canonical) == canon_json(contract_of(jv(*raw)))
            &&& p.path@ == expected_path_v(contracts_dir@, contract_of(jv(*raw)).id)
        },
{
    match contract_from_json(raw) {
        Err(m) => Err(m),
        Ok(contract) => {
            let canonical = contract_to_json(&contract);
            let path = expected_path(contracts_dir, contract.id.as_str());
            Ok(CreatePlan { contract, canonical, path })
        },
    }
}

/// The missing-file warning of a create.
pub open spec fn create_missing_v(path: Seq<char>) -> Seq<char> {
    "File does not exist yet: '"@ + path + "'"@
}

/// The missing-file warning of an update.
pub open spec fn update_missing_v(path: Seq<char>) -> Seq<char> {
    "File does not exist: '"@ + path + "'"@
}

/// The missing-file warnings of a create, one per referenced path that is
/// absent, in declaration order; they never block the write.
pub open spec fn create_missing_warnings_v(paths: Seq<Seq<char>>, present: Seq<bool>) -> Seq<
    Seq<char>,
>
    decreases paths,
{
    if paths.len() == 0 || paths.len() != present.len() {
        Seq::empty()
    } else {
        create_missing_warnings_v(paths.drop_last(), present.drop_last()) + if present.last() {
            Seq::empty()
        } else {
            seq![create_missing_v(paths.last())]
        }
    }
}

/// The missing-file warnings of an update, same policy as a create.
pub open spec fn update_missing_warnings_v(paths: Seq<Seq<char>>, present: Seq<bool>) -> Seq<
    Seq<char>,
>
    decreases paths,
{
    if paths.len() == 0 || paths.len() != present.len() {
        Seq::empty()
    } else {
        update_missing_warnings_v(paths.drop_last(), present.drop_last()) + if present.last() {
            Seq::empty()
        } else {
            seq![update_missing_v(paths.last())]
        }
    }
}

/// Builds the missing-file warnings of a create.
pub fn create_missing_warnings(paths: &Vec<String>, present: &Vec<bool>) -> (r: Vec<String>)
    requires
        paths@.len() == present@.len(),
    ensures
        strs_view(r@) == create_missing_warnings_v(strs_view(paths@), present@),
{
    let ghost pv = strs_view(paths@);
    let mut out: Vec<String> = Vec::new();
    let mut i: usize = 0;
    while i < paths.len()
        invariant
            i <= paths@.len(),
            paths@.len() == present@.len(),
            pv == strs_view(paths@),
            pv.len() == paths@.len(),
            strs_view(out@) =~= create_missing_warnings_v(
                pv.take(i as int),
                present@.take(i as int),
            ),
        decreases paths@.len() - i,
    {
        proof {
            assert(pv.take(i + 1).drop_last() =~= pv.take(i as int));
            assert(present@.take(i + 1).drop_last() =~= present@.take(i as int));
            assert(pv.take(i + 1).last() == pv[i as int]);
            assert(pv[i as int] == paths@[i as int]@);
            assert(present@.take(i + 1).last() == present@[i as int]);
        }
        if !present[i] {
            let mut w = String::from_str("File does not exist yet: '");
            w.append(paths[i].as_str());
            w.append("'");
            let ghost prev = out@;
            out.push(w);
            proof {
                lemma_strs_view_push(prev, out@.last());
                assert(out@.last()@ =~= create_missing_v(pv[i as int]));
                assert(strs_view(out@) =~= create_missing_warnings_v(
                    pv.take(i + 1),
                    present@.take(i + 1),
                ));
            }
        } else {
            proof {
                assert(strs_view(out@) =~= create_missing_warnings_v(
                    pv.take(i + 1),
                    present@.take(i + 1),
                ));
            }
        }
        i = i + 1;
    }
    proof {
        assert(pv.take(pv.len() as int) =~= pv);
        assert(present@.take(present@.len() as int) =~= present@);
    }
    out
}

/// Builds the missing-file warnings of an update.
pub fn update_missing_warnings(paths: &Vec<String>, present: &Vec<bool>) -> (r: Vec<String>)
    requires
        paths@.len() == present@.len(),
    ensures
        strs_view(r@) == update_missing_warnings_v(strs_view(paths@), present@),
{
    let ghost pv = strs_view(paths@);
    let mut out: Vec<String> = Vec::new();
    let mut i: usize = 0;
    while i < paths.len()
        invariant
            i <= paths@.len(),
            paths@.len() == present@.len(),
            pv == strs_view(paths@),
            pv.len() == paths@.len(),
            strs_view(out@) =~= update_missing_warnings_v(
                pv.take(i as int),
                present@.take(i as int),
            ),
        decreases paths@.len() - i,
    {
        proof {
            assert(pv.take(i + 1).drop_last() =~= pv.take(i as int));
            assert(present@.take(i + 1).drop_last() =~= present@.take(i as int));
            assert(pv.take(i + 1).last() == pv[i as int]);
            assert(pv[i as int] == paths@[i as int]@);
            assert(present@.take(i + 1).last() == present@[i as int]);
        }
        if !present[i] {
            let mut w = String::from_str("File does not exist: '");
            w.append(paths[i].as_str());
            w.append("'");
            let ghost prev = out@;
            out.push(w);
            proof {
                lemma_strs_view_push(prev, out@.last());
                assert(out@.last()@ =~= update_missing_v(pv[i as int]));
                assert(strs_view(out@) =~= update_missing_warnings_v(
                    pv.take(i + 1),
                    present@.take(i + 1),
                ));
            }
        } else {
            proof {
                assert(strs_view(out@) =~= update_missing_warnings_v(
                    pv.take(i + 1),
                    present@.take(i + 1),
                ));
            }
        }
        i = i + 1;
    }
    proof {
        assert(pv.take(pv.len() as int) =~= pv);
        assert(present@.take(present@.len() as int) =~= present@);
    }
    out
}

/// The change-log entry appended by an update: the merged record's current
/// version (a fixed fallback when absent), the given date, and the message.
pub open spec fn changelog_entry_for(
    m: Seq<(Seq<char>, JsonV)>,
    today: Seq<char>,
    msg: Seq<char>,
) -> JsonV {
    let ver = match ov_get(m, "version"@) {
        Some(JsonV::Str(s)) => s,
        _ => "0.0.0"@,
    };
    JsonV::Obj(
        seq![("version"@, JsonV::Str(ver)), ("date"@, JsonV::Str(today)), (
            "description"@,
            JsonV::Str(msg),
        )],
    )
}

/// A merged record with the change-log entry appended: an existing
/// change-log array grows by one, anything else becomes a one-entry array.
pub open spec fn with_changelog(
    m: Seq<(Seq<char>, JsonV)>,
    today: Seq<char>,
    msg: Option<Seq<char>>,
) -> Seq<(Seq<char>, JsonV)> {
    match msg {
        None => m,
        Some(message) => {
            let entry = changelog_entry_for(m, today, message);
            match ov_get(m, "changelog"@) {
                Some(JsonV::Arr(items)) => ov_set(m, "changelog"@, JsonV::Arr(items.push(entry))),
                _ => ov_set(m, "changelog"@, JsonV::Arr(seq![entry])),
            }
        },
    }
}

/// Reads the merged record's version string, or the fixed fallback.
fn version_or_default(entries: &Vec<(String, Json)>) -> (r: String)
    ensures
        r@ == match ov_get(jv_entries(entries@), "version"@) {
            Some(JsonV::Str(s)) => s,
            _ => "0.0.0"@,
        },
{
    match field_of(entries, "version") {
        Some(Json::Str(s)) => s.clone(),
        Some(x) => {
            proof {
                crate::schema::lemma_jv_variant(*x);
            }
            String::from_str("0.0.0")
        },
        None => String::from_str("0.0.0"),
    }
}

/// Appends the update's change-log entry to the merged record.
fn append_changelog(entries: &mut Vec<(String, Json)>, today: &str, msg: &str)
    ensures
        jv_entries(final(entries)@) == with_changelog(
            jv_entries(old(entries)@),
            today@,
            Some(msg@),
        ),
{
    let ghost m0 = jv_entries(old(entries)@);
    let ver = version_or_default(entries);
    let mut entry_fields: Vec<(String, Json)> = Vec::new();
    entry_fields.push((String::from_str("version"), Json::Str(ver)));
    entry_fields.push((String::from_str("date"), Json::Str(String::from_str(today))));
    entry_fields.push((String::from_str("description"), Json::Str(String::from_str(msg))));
    let entry = Json::Obj(entry_fields);
    proof {
        lemma_jv_entries_index(entry->Obj_0@);
        assert(jv_entries(entry->Obj_0@).len() == 3);
        assert(jv_entries(entry->Obj_0@)[0] == ("version"@, jv(entry->Obj_0@[0].1)));
        assert(jv(entry->Obj_0@[0].1) =~~= JsonV::Str(changelog_entry_for(m0, today@, msg@)->Obj_0[0].1->Str_0));
        assert(jv_entries(entry->Obj_0@) =~~= changelog_entry_for(m0, today@, msg@)->Obj_0);
        assert(jv(entry) =~~= changelog_entry_for(m0, today@, msg@));
    }
    let new_log: Json = match field_of(entries, "changelog") {
        Some(Json::Arr(items)) => {
            let mut copied: Vec<Json> = Vec::new();
            let mut i: usize = 0;
            while i < items.len()
                invariant
                    i <= items@.len(),
                    copied@.len() == i,
                    forall|k: int| 0 <= k < i ==> jv(copied@[k]) == jv(items@[k]),
                decreases items@.len() - i,
            {
                let c = json_clone(&items[i]);
                copied.push(c);
                i = i + 1;
            }
            proof {
                lemma_jv_list_index(copied@);
                lemma_jv_list_index(items@);
                assert(jv_list(copied@) =~= jv_list(items@));
            }
            copied.push(entry);
            proof {
                assert(copied@.drop_last() =~= copied@.take(copied@.len() - 1));
                lemma_jv_list_index(copied@);
                assert(jv_list(copied@) =~= jv_list(items@).push(jv(copied@.last())));
            }
            Json::Arr(copied)
        },
        Some(x) => {
            proof {
                crate::schema::lemma_jv_variant(*x);
            }
            let mut one: Vec<Json> = Vec::new();
            one.push(entry);
            proof {
                lemma_jv_list_index(one@);
                assert(jv_list(one@) =~= seq![changelog_entry_for(m0, today@, msg@)]);
            }
            Json::Arr(one)
        },
        None => {
            let mut one: Vec<Json> = Vec::new();
            one.push(entry);
            proof {
                lemma_jv_list_index(one@);
                assert(jv_list(one@) =~= seq![changelog_entry_for(m0, today@, msg@)]);
            }
            Json::Arr(one)
        },
    };
    crate::json::obj_set(entries, String::from_str("changelog"), new_log);
    proof {
        assert(jv_entries(entries@) =~~= with_changelog(m0, today@, Some(msg@)));
    }
}

/// What an update will write, once the caller has checked the rename
/// target.
pub struct UpdatePlan {
    pub contract: Contract,
    pub canonical: Json,
    pub new_id: String,
    pub new_path: String,
    pub renamed: bool,
}

/// The merged model an update validates and writes.
pub open spec fn merged_model(
    base: JsonV,
    updates: JsonV,
    today: Seq<char>,
    msg: Option<Seq<char>>,
) -> JsonV {
    JsonV::Obj(with_changelog(ov_merge(base->Obj_0, updates->Obj_0), today, msg))
}

/// Everything an update promises once its inputs and the date are fixed:
/// the merged record is validated before anything may be written, the
/// record's id decides the output path, and a changed id marks a rename.
pub open spec fn update_outcome(
    r: Result<UpdatePlan, String>,
    contract_id: Seq<char>,
    basev: JsonV,
    updv: JsonV,
    msgv: Option<Seq<char>>,
    today: Seq<char>,
    dir: Seq<char>,
) -> bool {
    let merged = merged_model(basev, updv, today, msgv);
    &&& (r is Ok <==> schema_ok(merged))
    &&& (r matches Err(m) ==> Some(m@) == shape_error(merged))
    &&& (r matches Ok(p) ==> {
        &&& contract_v(p.contract) == contract_of(merged)
        &&& jv(p.canonical) == canon_json(contract_of(merged))
        &&& p.new_id@ == contract_of(merged).id
        &&& p.new_path@ == expected_path_v(dir, contract_of(merged).id)
        &&& p.renamed == (contract_of(merged).id != contract_id)
    })
}

/// Plans an update against a given calendar date: the caller's partial
/// object is shallow-merged over the existing record (list fields replaced
/// wholesale) and the optional change-log entry is appended, dated `today`.
pub fn update_plan(
    contract_id: &str,
    base: &Json,
    updates: &Json,
    changelog_message: &Option<String>,
    today: &str,
    contracts_dir: &str,
) -> (r: Result<UpdatePlan, String>)
    requires
        jv(*base) is Obj,
    ensures
        !(jv(*updates) is Obj) ==> (r matches Err(m) && m@ == "'updates' must be a JSON object"@),
        jv(*updates) is Obj ==> update_outcome(
            r,
            contract_id@,
            jv(*base),
            jv(*updates),
            crate::model::opt_str_v(*changelog_message),
            today@,
            contracts_dir@,
        ),
{
    let base_entries = match base {
        Json::Obj(entries) => entries,
        _ => {
            proof {
                assert(false);
            }
            return Err(String::from_str("'updates' must be a JSON object"));
        },
    };
    let upd_entries = match updates {
        Json::Obj(entries) => entries,
        _ => {
            proof {
                crate::schema::lemma_jv_variant(*updates);
            }
            return Err(String::from_str("'updates' must be a JSON object"));
        },
    };
    let merged = build_merged(base_entries, upd_entries, changelog_message, today);
    proof {
        assert(jv(*base) == JsonV::Obj(jv_entries(base_entries@)));
        assert(jv(*updates) == JsonV::Obj(jv_entries(upd_entries@)));
        assert(jv(merged) =~~= merged_model(
            jv(*base),
            jv(*updates),
            today@,
            crate::model::opt_str_v(*changelog_message),
        ));
    }
    match contract_from_json(&merged) {
        Err(m) => Err(m),
        Ok(contract) => {
            let canonical = contract_to_json(&contract);
            let new_id = contract.id.clone();
            let new_path = expected_path(contracts_dir, new_id.as_str());
            let renamed = !str_eq(new_id.as_str(), contract_id);
            Ok(UpdatePlan { contract, canonical, new_id, new_path, renamed })
        },
    }
}

/// Plans an update dated today: the change-log entry, if any, carries the
/// date the clock gave, and the rest holds whatever that date was.
pub fn update_plan_now(
    contract_id: &str,
    base: &Json,
    updates: &Json,
    changelog_message: &Option<String>,
    contracts_dir: &str,
) -> (r: Result<UpdatePlan, String>)
    requires
        jv(*base) is Obj,
    ensures
        !(jv(*updates) is Obj) ==> (r matches Err(m) && m@ == "'updates' must be a JSON object"@),
        jv(*updates) is Obj ==> exists|today: Seq<char>|
            update_outcome(
                r,
                contract_id@,
                jv(*base),
                jv(*updates),
                crate::model::opt_str_v(*changelog_message),
                today,
                contracts_dir@,
            ),
{
    let today = today_string();
    let r = update_plan(contract_id, base, updates, changelog_message, today.as_str(), contracts_dir);
    proof {
        if jv(*updates) is Obj {
            assert(update_outcome(
                r,
                contract_id@,
                jv(*base),
                jv(*updates),
                crate::model::opt_str_v(*changelog_message),
                today@,
                contracts_dir@,
            ));
        }
    }
    r
}

/// Builds the merged record an update validates: the base's entries with
/// the caller's bindings merged over them and the optional change-log
/// entry appended, dated `today`.
fn build_merged(
    base_entries: &Vec<(String, Json)>,
    upd_entries: &Vec<(String, Json)>,
    changelog_message: &Option<String>,
    today: &str,
) -> (r: Json)
    ensures
        jv(r) == JsonV::Obj(
            with_changelog(
                ov_merge(jv_entries(base_entries@), jv_entries(upd_entries@)),
                today@,
                crate::model::opt_str_v(*changelog_message),
            ),
        ),
{
    let mut merged_entries: Vec<(String, Json)> = Vec::new();
    let mut i: usize = 0;
    while i < base_entries.len()
        invariant
            i <= base_entries@.len(),
            merged_entries@.len() == i,
            forall|k: int| 0 <= k < i ==> merged_entries@[k].0@ == base_entries@[k].0@ && jv(
                merged_entries@[k].1,
            ) == jv(base_entries@[k].1),
        decreases base_entries@.len() - i,
    {
        let key = base_entries[i].0.clone();
        let val = json_clone(&base_entries[i].1);
        merged_entries.push((key, val));
        i = i + 1;
    }
    proof {
        lemma_jv_entries_index(merged_entries@);
        lemma_jv_entries_index(base_entries@);
        assert(jv_entries(merged_entries@) =~= jv_entries(base_entries@));
    }
    obj_merge(&mut merged_entries, upd_entries);
    if let Some(msg) = changelog_message {
        append_changelog(&mut merged_entries, today, msg.as_str());
    }
    Json::Obj(merged_entries)
}

/// Every schema violation of the record an update would validate: the full
/// list, in field order, where the planner's rejection reports the first.
/// For an update rejected because the partial object is not a table, the
/// list is empty: no merged record exists to check.
pub fn update_schema_errors(
    base: &Json,
    updates: &Json,
    changelog_message: &Option<String>,
    today: &str,
) -> (r: Vec<String>)
    requires
        jv(*base) is Obj,
    ensures
        jv(*updates) is Obj ==> strs_view(r@) == crate::schema::shape_error_list(
            merged_model(
                jv(*base),
                jv(*updates),
                today@,
                crate::model::opt_str_v(*changelog_message),
            ),
        ),
        !(jv(*updates) is Obj) ==> r@.len() == 0,
{
    let base_entries = match base {
        Json::Obj(entries) => entries,
        _ => {
            proof {
                assert(false);
            }
            return Vec::new();
        },
    };
    let upd_entries = match updates {
        Json::Obj(entries) => entries,
        _ => {
            return Vec::new();
        },
    };
    let merged = build_merged(base_entries, upd_entries, changelog_message, today);
    proof {
        assert(jv(*base) == JsonV::Obj(jv_entries(base_entries@)));
        assert(jv(*updates) == JsonV::Obj(jv_entries(upd_entries@)));
        assert(jv(merged) =~~= merged_model(
            jv(*base),
            jv(*updates),
            today@,
            crate::model::opt_str_v(*changelog_message),
        ));
    }
    crate::schema::contract_shape_errors(&merged)
}

/// The collision error of a rename whose target id already has a file.
pub open spec fn rename_collision_v(new_id: Seq<char>, new_path: Seq<char>) -> Seq<char> {
    "Cannot rename to '"@ + new_id + "': a contract with that id already exists at '"@ + new_path
        + "'."@
}

/// Decides whether a planned update collides: exactly when it renames the
/// record and a file already sits at the new id's path. A collision blocks
/// the update before anything is written.
pub fn rename_collision(plan: &UpdatePlan, new_path_exists: bool) -> (r: Option<String>)
    ensures
        r is Some <==> (plan.renamed && new_path_exists),
        r matches Some(m) ==> m@ == rename_collision_v(plan.new_id@, plan.new_path@),
{
    if plan.renamed && new_path_exists {
        let mut m = String::from_str("Cannot rename to '");
        m.append(plan.new_id.as_str());
        m.append("': a contract with that id already exists at '");
        m.append(plan.new_path.as_str());
        m.append("'.");
        Some(m)
    } else {
        None
    }
}

} // verus!
