//! The record grammar: which structural values are well-shaped contracts,
//! and the conversion between the structural form and the typed model.
//! Shape checking and conversion agree by construction: conversion succeeds
//! exactly on the values the grammar admits.
use vstd::prelude::*;

use crate::json::{Json, JsonV, jv, jv_list, jv_entries, ov_get, ov_find, lemma_ov_find, lemma_jv_list_index, lemma_jv_entries_push,
    lemma_jv_entries_index, lemma_ov_get_concat, lemma_ov_get_absent, json_clone, obj_find, str_eq};
use crate::model::{Contract, ContractV, Rule, RuleV, ChangelogEntry, ChangelogEntryV, Trigger,
    TriggerV, AppliesTo, AppliesToV, Priority, Status, strs_view, lemma_strs_view_push, rule_v,
    changelog_entry_v, trigger_v, contract_v};

verus! {

broadcast use vstd::string::group_string_axioms;

/// The string carried by a string value; empty for any other shape.
pub open spec fn str_of(v: JsonV) -> Seq<char> {
    match v {
        JsonV::Str(s) => s,
        _ => Seq::empty(),
    }
}

/// Every element is a string value.
pub open spec fn all_strs(vs: Seq<JsonV>) -> bool {
    forall|i: int| 0 <= i < vs.len() ==> vs[i] is Str
}

/// The strings carried by a list of string values.
pub open spec fn strs_of(vs: Seq<JsonV>) -> Seq<Seq<char>> {
    vs.map_values(|v: JsonV| str_of(v))
}

/// The field is present and holds a string.
pub open spec fn req_str_ok(e: Seq<(Seq<char>, JsonV)>, key: Seq<char>) -> bool {
    ov_get(e, key) matches Some(v) && v is Str
}

/// The field is absent or holds a string.
pub open spec fn opt_str_ok(e: Seq<(Seq<char>, JsonV)>, key: Seq<char>) -> bool {
    match ov_get(e, key) {
        None => true,
        Some(v) => v is Str,
    }
}

/// The field is absent or holds an array of strings.
pub open spec fn opt_arr_strs_ok(e: Seq<(Seq<char>, JsonV)>, key: Seq<char>) -> bool {
    match ov_get(e, key) {
        None => true,
        Some(JsonV::Arr(items)) => all_strs(items),
        Some(_) => false,
    }
}

/// The priority field is absent or one of the three priority names.
pub open spec fn priority_ok(e: Seq<(Seq<char>, JsonV)>) -> bool {
    match ov_get(e, "priority"@) {
        None => true,
        Some(JsonV::Str(s)) => s == "must"@ || s == "should"@ || s == "prefer"@,
        Some(_) => false,
    }
}

/// The status field is absent or one of the three status names.
pub open spec fn status_ok(e: Seq<(Seq<char>, JsonV)>) -> bool {
    match ov_get(e, "status"@) {
        None => true,
        Some(JsonV::Str(s)) => s == "active"@ || s == "draft"@ || s == "deprecated"@,
        Some(_) => false,
    }
}

/// The applies-to field is absent, one pattern, or an array of patterns.
pub open spec fn applies_ok(e: Seq<(Seq<char>, JsonV)>) -> bool {
    match ov_get(e, "applies_to"@) {
        None => true,
        Some(JsonV::Str(_)) => true,
        Some(JsonV::Arr(items)) => all_strs(items),
        Some(_) => false,
    }
}

/// The trigger field is absent or a table whose optional kind is a string.
pub open spec fn trigger_ok(e: Seq<(Seq<char>, JsonV)>) -> bool {
    match ov_get(e, "trigger"@) {
        None => true,
        Some(JsonV::Obj(te)) => opt_str_ok(te, "type"@),
        Some(_) => false,
    }
}

/// A well-shaped rule table.
pub open spec fn rule_ok(v: JsonV) -> bool {
    match v {
        JsonV::Obj(re) => req_str_ok(re, "id"@) && req_str_ok(re, "description"@)
            && opt_arr_strs_ok(re, "files"@) && opt_arr_strs_ok(re, "constraints"@),
        _ => false,
    }
}

/// Every element is a well-shaped rule table.
pub open spec fn all_rules_ok(ms: Seq<JsonV>) -> bool {
    forall|i: int| 0 <= i < ms.len() ==> rule_ok(#[trigger] ms[i])
}

/// The rules field is absent or an array of well-shaped rule tables.
pub open spec fn rules_ok(e: Seq<(Seq<char>, JsonV)>) -> bool {
    match ov_get(e, "rules"@) {
        None => true,
        Some(JsonV::Arr(items)) => all_rules_ok(items),
        Some(_) => false,
    }
}

/// A well-shaped change-log entry table.
pub open spec fn entry_ok(v: JsonV) -> bool {
    match v {
        JsonV::Obj(ce) => req_str_ok(ce, "version"@) && req_str_ok(ce, "description"@)
            && opt_str_ok(ce, "date"@),
        _ => false,
    }
}

/// Every element is a well-shaped change-log entry table.
pub open spec fn all_entries_ok(ms: Seq<JsonV>) -> bool {
    forall|i: int| 0 <= i < ms.len() ==> entry_ok(#[trigger] ms[i])
}

/// The changelog field is absent or an array of well-shaped entries.
pub open spec fn changelog_ok(e: Seq<(Seq<char>, JsonV)>) -> bool {
    match ov_get(e, "changelog"@) {
        None => true,
        Some(JsonV::Arr(items)) => all_entries_ok(items),
        Some(_) => false,
    }
}

/// The first shape violation of a structural value held against the record
/// grammar, in field order; `None` means the value is a well-shaped contract.
pub open spec fn shape_error(m: JsonV) -> Option<Seq<char>> {
    if !(m is Obj) {
        Some("contract must be a table"@)
    } else {
        let e = m->Obj_0;
        if !req_str_ok(e, "id"@) {
            Some("contract requires a string 'id'"@)
        } else if !req_str_ok(e, "version"@) {
            Some("contract requires a string 'version'"@)
        } else if !req_str_ok(e, "name"@) {
            Some("contract requires a string 'name'"@)
        } else if !req_str_ok(e, "description"@) {
            Some("contract requires a string 'description'"@)
        } else if !priority_ok(e) {
            Some("'priority' must be one of 'must', 'should', 'prefer'"@)
        } else if !status_ok(e) {
            Some("'status' must be one of 'active', 'draft', 'deprecated'"@)
        } else if !opt_str_ok(e, "domain"@) {
            Some("'domain' must be a string"@)
        } else if !opt_arr_strs_ok(e, "tags"@) {
            Some("'tags' must be an array of strings"@)
        } else if !applies_ok(e) {
            Some("'applies_to' must be a string or an array of strings"@)
        } else if !trigger_ok(e) {
            Some("'trigger' must be a table with an optional string 'type'"@)
        } else if !opt_arr_strs_ok(e, "files"@) {
            Some("'files' must be an array of strings"@)
        } else if !rules_ok(e) {
            Some("'rules' must be an array of tables with string 'id' and 'description'"@)
        } else if !opt_str_ok(e, "notes"@) {
            Some("'notes' must be a string"@)
        } else if !changelog_ok(e) {
            Some("'changelog' must be an array of tables with string 'version' and 'description'"@)
        } else {
            None
        }
    }
}

/// Every shape violation of a structural value held against the record
/// grammar, in field order: the full list, where `shape_error` stops at
/// the first.
pub open spec fn shape_error_list(m: JsonV) -> Seq<Seq<char>> {
    if !(m is Obj) {
        seq!["contract must be a table"@]
    } else {
        let e = m->Obj_0;
        fault(req_str_ok(e, "id"@), "contract requires a string 'id'"@) + fault(
            req_str_ok(e, "version"@),
            "contract requires a string 'version'"@,
        ) + fault(req_str_ok(e, "name"@), "contract requires a string 'name'"@) + fault(
            req_str_ok(e, "description"@),
            "contract requires a string 'description'"@,
        ) + fault(priority_ok(e), "'priority' must be one of 'must', 'should', 'prefer'"@)
            + fault(status_ok(e), "'status' must be one of 'active', 'draft', 'deprecated'"@)
            + fault(opt_str_ok(e, "domain"@), "'domain' must be a string"@) + fault(
            opt_arr_strs_ok(e, "tags"@),
            "'tags' must be an array of strings"@,
        ) + fault(applies_ok(e), "'applies_to' must be a string or an array of strings"@)
            + fault(
            trigger_ok(e),
            "'trigger' must be a table with an optional string 'type'"@,
        ) + fault(opt_arr_strs_ok(e, "files"@), "'files' must be an array of strings"@) + fault(
            rules_ok(e),
            "'rules' must be an array of tables with string 'id' and 'description'"@,
        ) + fault(opt_str_ok(e, "notes"@), "'notes' must be a string"@) + fault(
            changelog_ok(e),
            "'changelog' must be an array of tables with string 'version' and 'description'"@,
        )
    }
}

/// One entry of the violation list: empty when the check holds.
pub open spec fn fault(ok: bool, msg: Seq<char>) -> Seq<Seq<char>> {
    if ok {
        Seq::empty()
    } else {
        seq![msg]
    }
}

/// The two checkers agree: the list is empty exactly when the value is
/// well shaped, and its first entry is the first violation.
pub proof fn lemma_shape_error_list(m: JsonV)
    ensures
        (shape_error_list(m).len() == 0) == (shape_error(m) is None),
        shape_error(m) matches Some(msg) ==> shape_error_list(m).len() > 0 && shape_error_list(
            m,
        )[0] == msg,
{
}

/// A structural value is a well-shaped contract.
pub open spec fn schema_ok(m: JsonV) -> bool {
    shape_error(m) is None
}

/// The string held by an optional string field.
pub open spec fn opt_str_field(e: Seq<(Seq<char>, JsonV)>, key: Seq<char>) -> Option<Seq<char>> {
    match ov_get(e, key) {
        Some(JsonV::Str(s)) => Some(s),
        _ => None,
    }
}

/// The strings held by an optional array-of-strings field.
pub open spec fn opt_strs_field(e: Seq<(Seq<char>, JsonV)>, key: Seq<char>) -> Option<
    Seq<Seq<char>>,
> {
    match ov_get(e, key) {
        Some(JsonV::Arr(items)) => Some(strs_of(items)),
        _ => None,
    }
}

/// The priority denoted by the priority field; absent means must.
pub open spec fn priority_of(e: Seq<(Seq<char>, JsonV)>) -> Priority {
    match ov_get(e, "priority"@) {
        Some(JsonV::Str(s)) => if s == "should"@ {
            Priority::Should
        } else if s == "prefer"@ {
            Priority::Prefer
        } else {
            Priority::Must
        },
        _ => Priority::Must,
    }
}

/// The status denoted by the status field; absent means active.
pub open spec fn status_of(e: Seq<(Seq<char>, JsonV)>) -> Status {
    match ov_get(e, "status"@) {
        Some(JsonV::Str(s)) => if s == "draft"@ {
            Status::Draft
        } else if s == "deprecated"@ {
            Status::Deprecated
        } else {
            Status::Active
        },
        _ => Status::Active,
    }
}

/// The applies-to declaration denoted by the field.
pub open spec fn applies_of(e: Seq<(Seq<char>, JsonV)>) -> Option<AppliesToV> {
    match ov_get(e, "applies_to"@) {
        Some(JsonV::Str(s)) => Some(AppliesToV::Single(s)),
        Some(JsonV::Arr(items)) => Some(AppliesToV::Multiple(strs_of(items))),
        _ => None,
    }
}

/// The trigger's extra data: every entry but the kind discriminator.
pub open spec fn trig_extra(te: Seq<(Seq<char>, JsonV)>) -> Seq<(Seq<char>, JsonV)>
    decreases te,
{
    if te.len() == 0 {
        Seq::empty()
    } else if te.last().0 == "type"@ {
        trig_extra(te.drop_last())
    } else {
        trig_extra(te.drop_last()).push(te.last())
    }
}

/// The trigger denoted by the trigger field.
pub open spec fn trigger_of(e: Seq<(Seq<char>, JsonV)>) -> Option<TriggerV> {
    match ov_get(e, "trigger"@) {
        Some(JsonV::Obj(te)) => Some(
            TriggerV { kind: opt_str_field(te, "type"@), extra: trig_extra(te) },
        ),
        _ => None,
    }
}

/// The rule denoted by a rule table.
pub open spec fn rule_of(v: JsonV) -> RuleV {
    match v {
        JsonV::Obj(re) => RuleV {
            id: match opt_str_field(re, "id"@) {
                Some(s) => s,
                None => Seq::empty(),
            },
            description: match opt_str_field(re, "description"@) {
                Some(s) => s,
                None => Seq::empty(),
            },
            files: opt_strs_field(re, "files"@),
            constraints: opt_strs_field(re, "constraints"@),
        },
        _ => RuleV {
            id: Seq::empty(),
            description: Seq::empty(),
            files: None,
            constraints: None,
        },
    }
}

/// The rules denoted by the rules field.
pub open spec fn rules_of(e: Seq<(Seq<char>, JsonV)>) -> Option<Seq<RuleV>> {
    match ov_get(e, "rules"@) {
        Some(JsonV::Arr(items)) => Some(items.map_values(|v: JsonV| rule_of(v))),
        _ => None,
    }
}

/// The change-log entry denoted by an entry table.
pub open spec fn entry_of(v: JsonV) -> ChangelogEntryV {
    match v {
        JsonV::Obj(ce) => ChangelogEntryV {
            version: match opt_str_field(ce, "version"@) {
                Some(s) => s,
                None => Seq::empty(),
            },
            date: opt_str_field(ce, "date"@),
            description: match opt_str_field(ce, "description"@) {
                Some(s) => s,
                None => Seq::empty(),
            },
        },
        _ => ChangelogEntryV { version: Seq::empty(), date: None, description: Seq::empty() },
    }
}

/// The change history denoted by the changelog field.
pub open spec fn changelog_of(e: Seq<(Seq<char>, JsonV)>) -> Option<Seq<ChangelogEntryV>> {
    match ov_get(e, "changelog"@) {
        Some(JsonV::Arr(items)) => Some(items.map_values(|v: JsonV| entry_of(v))),
        _ => None,
    }
}

/// A key the record grammar interprets; every other key is preserved as is.
pub open spec fn known_key(k: Seq<char>) -> bool {
    ||| k == "id"@
    ||| k == "version"@
    ||| k == "name"@
    ||| k == "description"@
    ||| k == "priority"@
    ||| k == "status"@
    ||| k == "domain"@
    ||| k == "tags"@
    ||| k == "applies_to"@
    ||| k == "trigger"@
    ||| k == "files"@
    ||| k == "rules"@
    ||| k == "notes"@
    ||| k == "changelog"@
}

/// The entries preserved in the open-ended extra bag, in order.
pub open spec fn extra_of(e: Seq<(Seq<char>, JsonV)>) -> Seq<(Seq<char>, JsonV)>
    decreases e,
{
    if e.len() == 0 {
        Seq::empty()
    } else if known_key(e.last().0) {
        extra_of(e.drop_last())
    } else {
        extra_of(e.drop_last()).push(e.last())
    }
}

/// The typed model denoted by a well-shaped contract value.
pub open spec fn contract_of(m: JsonV) -> ContractV {
    let e = m->Obj_0;
    ContractV {
        id: match opt_str_field(e, "id"@) {
            Some(s) => s,
            None => Seq::empty(),
        },
        version: match opt_str_field(e, "version"@) {
            Some(s) => s,
            None => Seq::empty(),
        },
        name: match opt_str_field(e, "name"@) {
            Some(s) => s,
            None => Seq::empty(),
        },
        description: match opt_str_field(e, "description"@) {
            Some(s) => s,
            None => Seq::empty(),
        },
        priority: priority_of(e),
        status: status_of(e),
        domain: opt_str_field(e, "domain"@),
        tags: opt_strs_field(e, "tags"@),
        applies_to: applies_of(e),
        trigger: trigger_of(e),
        files: opt_strs_field(e, "files"@),
        rules: rules_of(e),
        notes: opt_str_field(e, "notes"@),
        changelog: changelog_of(e),
        extra: extra_of(e),
    }
}

/// First value bound to `key` among an object's entries, by reference.
pub fn field_of<'a>(entries: &'a Vec<(String, Json)>, key: &str) -> (r: Option<&'a Json>)
    ensures
        match r {
            Some(x) => ov_get(jv_entries(entries@), key@) == Some(jv(*x)),
            None => ov_get(jv_entries(entries@), key@) is None,
        },
{
    proof {
        lemma_jv_entries_index(entries@);
        lemma_ov_find(jv_entries(entries@), key@);
    }
    match obj_find(entries, key) {
        Some(i) => {
            proof {
                crate::json::lemma_ov_find_witness(jv_entries(entries@), key@, i as int);
            }
            Some(&entries[i].1)
        },
        None => {
            proof {
                let e = jv_entries(entries@);
                if ov_find(e, key@) >= 0 {
                    assert(entries@[ov_find(e, key@)].0@ == key@);
                }
            }
            None
        },
    }
}

/// Converts an array of string values; fails on any other element shape.
pub fn conv_strs(items: &Vec<Json>) -> (r: Option<Vec<String>>)
    ensures
        r is Some <==> all_strs(jv_list(items@)),
        r matches Some(out) ==> strs_view(out@) == strs_of(jv_list(items@)),
{
    proof {
        lemma_jv_list_index(items@);
    }
    let mut out: Vec<String> = Vec::new();
    let mut i: usize = 0;
    while i < items.len()
        invariant
            i <= items@.len(),
            out@.len() == i,
            forall|k: int| 0 <= k < i ==> jv(items@[k]) is Str,
            forall|k: int| 0 <= k < i ==> out@[k]@ == str_of(jv(items@[k])),
            jv_list(items@).len() == items@.len(),
            forall|k: int| 0 <= k < items@.len() ==> jv_list(items@)[k] == jv(items@[k]),
        decreases items@.len() - i,
    {
        match &items[i] {
            Json::Str(s) => {
                out.push(s.clone());
            },
            _ => {
                proof {
                    assert(!(jv_list(items@)[i as int] is Str));
                }
                return None;
            },
        }
        i = i + 1;
    }
    proof {
        assert(strs_view(out@) =~= strs_of(jv_list(items@)));
    }
    Some(out)
}

/// Converts one rule table.
pub fn conv_rule(v: &Json) -> (r: Option<Rule>)
    ensures
        r is Some <==> rule_ok(jv(*v)),
        r matches Some(x) ==> rule_v(x) == rule_of(jv(*v)),
{
    match v {
        Json::Obj(re) => {
            let ghost te = jv_entries(re@);
            proof {
                assert(jv(*v) == JsonV::Obj(te));
            }
            let id = match field_of(re, "id") {
                Some(Json::Str(s)) => s.clone(),
                _ => {
                    return None;
                },
            };
            let description = match field_of(re, "description") {
                Some(Json::Str(s)) => s.clone(),
                _ => {
                    return None;
                },
            };
            let files = match field_of(re, "files") {
                None => None,
                Some(Json::Arr(items)) => {
                    match conv_strs(items) {
                        Some(list) => Some(list),
                        None => {
                            return None;
                        },
                    }
                },
                Some(_) => {
                    return None;
                },
            };
            let constraints = match field_of(re, "constraints") {
                None => None,
                Some(Json::Arr(items)) => {
                    match conv_strs(items) {
                        Some(list) => Some(list),
                        None => {
                            return None;
                        },
                    }
                },
                Some(_) => {
                    return None;
                },
            };
            let out = Rule { id, description, files, constraints };
            proof {
                assert(rule_v(out) =~~= rule_of(jv(*v)));
            }
            Some(out)
        },
        _ => None,
    }
}

/// Converts the rules array.
pub fn conv_rules(items: &Vec<Json>) -> (r: Option<Vec<Rule>>)
    ensures
        r is Some <==> all_rules_ok(jv_list(items@)),
        r matches Some(out) ==> out@.map_values(|x: Rule| rule_v(x)) == jv_list(
            items@,
        ).map_values(|mv: JsonV| rule_of(mv)),
{
    proof {
        lemma_jv_list_index(items@);
    }
    let mut out: Vec<Rule> = Vec::new();
    let mut i: usize = 0;
    while i < items.len()
        invariant
            i <= items@.len(),
            out@.len() == i,
            forall|k: int| 0 <= k < i ==> rule_ok(#[trigger] jv(items@[k])),
            forall|k: int| 0 <= k < i ==> rule_v(#[trigger] out@[k]) == rule_of(jv(items@[k])),
            jv_list(items@).len() == items@.len(),
            forall|k: int| 0 <= k < items@.len() ==> jv_list(items@)[k] == jv(items@[k]),
        decreases items@.len() - i,
    {
        match conv_rule(&items[i]) {
            Some(x) => {
                out.push(x);
            },
            None => {
                proof {
                    assert(!rule_ok(jv_list(items@)[i as int]));
                }
                return None;
            },
        }
        i = i + 1;
    }
    proof {
        assert(out@.map_values(|x: Rule| rule_v(x)) =~= jv_list(items@).map_values(
            |mv: JsonV| rule_of(mv),
        ));
    }
    Some(out)
}

/// Converts one change-log entry table.
pub fn conv_entry(v: &Json) -> (r: Option<ChangelogEntry>)
    ensures
        r is Some <==> entry_ok(jv(*v)),
        r matches Some(x) ==> changelog_entry_v(x) == entry_of(jv(*v)),
{
    match v {
        Json::Obj(ce) => {
            let ghost te = jv_entries(ce@);
            proof {
                assert(jv(*v) == JsonV::Obj(te));
            }
            let version = match field_of(ce, "version") {
                Some(Json::Str(s)) => s.clone(),
                _ => {
                    return None;
                },
            };
            let description = match field_of(ce, "description") {
                Some(Json::Str(s)) => s.clone(),
                _ => {
                    return None;
                },
            };
            let date = match field_of(ce, "date") {
                None => None,
                Some(Json::Str(s)) => Some(s.clone()),
                Some(_) => {
                    return None;
                },
            };
            let out = ChangelogEntry { version, date, description };
            proof {
                assert(changelog_entry_v(out) =~~= entry_of(jv(*v)));
            }
            Some(out)
        },
        _ => None,
    }
}

/// Converts the changelog array.
pub fn conv_entries(items: &Vec<Json>) -> (r: Option<Vec<ChangelogEntry>>)
    ensures
        r is Some <==> all_entries_ok(jv_list(items@)),
        r matches Some(out) ==> out@.map_values(|x: ChangelogEntry| changelog_entry_v(x))
            == jv_list(items@).map_values(|mv: JsonV| entry_of(mv)),
{
    proof {
        lemma_jv_list_index(items@);
    }
    let mut out: Vec<ChangelogEntry> = Vec::new();
    let mut i: usize = 0;
    while i < items.len()
        invariant
            i <= items@.len(),
            out@.len() == i,
            forall|k: int| 0 <= k < i ==> entry_ok(#[trigger] jv(items@[k])),
            forall|k: int| 0 <= k < i ==> changelog_entry_v(#[trigger] out@[k]) == entry_of(
                jv(items@[k]),
            ),
            jv_list(items@).len() == items@.len(),
            forall|k: int| 0 <= k < items@.len() ==> jv_list(items@)[k] == jv(items@[k]),
        decreases items@.len() - i,
    {
        match conv_entry(&items[i]) {
            Some(x) => {
                out.push(x);
            },
            None => {
                proof {
                    assert(!entry_ok(jv_list(items@)[i as int]));
                }
                return None;
            },
        }
        i = i + 1;
    }
    proof {
        assert(out@.map_values(|x: ChangelogEntry| changelog_entry_v(x)) =~= jv_list(
            items@,
        ).map_values(|mv: JsonV| entry_of(mv)));
    }
    Some(out)
}

/// Converts the trigger table, splitting off the kind discriminator.
pub fn conv_trigger(v: &Json) -> (r: Option<Trigger>)
    ensures
        jv(*v) matches JsonV::Obj(te) ==> {
            &&& (r is Some <==> opt_str_ok(te, "type"@))
            &&& (r matches Some(t) ==> trigger_v(t) == TriggerV {
                kind: opt_str_field(te, "type"@),
                extra: trig_extra(te),
            })
        },
        !(jv(*v) is Obj) ==> r is None,
{
    match v {
        Json::Obj(oe) => {
            let ghost te = jv_entries(oe@);
            proof {
                assert(jv(*v) == JsonV::Obj(te));
                lemma_jv_entries_index(oe@);
            }
            let kind = match field_of(oe, "type") {
                None => None,
                Some(Json::Str(s)) => Some(s.clone()),
                Some(_) => {
                    return None;
                },
            };
            let mut extra: Vec<(String, Json)> = Vec::new();
            let mut i: usize = 0;
            while i < oe.len()
                invariant
                    i <= oe@.len(),
                    te == jv_entries(oe@),
                    te.len() == oe@.len(),
                    forall|k: int| 0 <= k < oe@.len() ==> te[k] == (oe@[k].0@, jv(oe@[k].1)),
                    jv_entries(extra@) =~= trig_extra(te.take(i as int)),
                decreases oe@.len() - i,
            {
                if !str_eq(oe[i].0.as_str(), "type") {
                    let ghost prev = extra@;
                    let key = oe[i].0.clone();
                    let val = json_clone(&oe[i].1);
                    extra.push((key, val));
                    proof {
                        lemma_jv_entries_index(prev);
                        lemma_jv_entries_index(extra@);
                        assert(te.take(i + 1).drop_last() =~= te.take(i as int));
                        assert(te.take(i + 1).last() == te[i as int]);
                        assert(jv_entries(extra@) =~= jv_entries(prev).push(
                            (key@, jv(oe@[i as int].1)),
                        ));
                        assert(jv_entries(extra@) =~= trig_extra(te.take(i + 1)));
                    }
                } else {
                    proof {
                        assert(te.take(i + 1).drop_last() =~= te.take(i as int));
                        assert(te.take(i + 1).last() == te[i as int]);
                        assert(jv_entries(extra@) =~= trig_extra(te.take(i + 1)));
                    }
                }
                i = i + 1;
            }
            proof {
                assert(te.take(te.len() as int) =~= te);
            }
            let out = Trigger { kind, extra };
            proof {
                assert(trigger_v(out) =~~= TriggerV {
                    kind: opt_str_field(te, "type"@),
                    extra: trig_extra(te),
                });
            }
            Some(out)
        },
        _ => None,
    }
}

/// Is this a key the record grammar interprets?
pub fn is_known_key(k: &str) -> (r: bool)
    ensures
        r == known_key(k@),
{
    str_eq(k, "id") || str_eq(k, "version") || str_eq(k, "name") || str_eq(k, "description")
        || str_eq(k, "priority") || str_eq(k, "status") || str_eq(k, "domain") || str_eq(
        k,
        "tags",
    ) || str_eq(k, "applies_to") || str_eq(k, "trigger") || str_eq(k, "files") || str_eq(
        k,
        "rules",
    ) || str_eq(k, "notes") || str_eq(k, "changelog")
}

/// Collects the entries preserved in the open-ended extra bag, in order.
pub fn conv_extra(entries: &Vec<(String, Json)>) -> (r: Vec<(String, Json)>)
    ensures
        jv_entries(r@) == extra_of(jv_entries(entries@)),
{
    let ghost te = jv_entries(entries@);
    proof {
        lemma_jv_entries_index(entries@);
    }
    let mut out: Vec<(String, Json)> = Vec::new();
    let mut i: usize = 0;
    while i < entries.len()
        invariant
            i <= entries@.len(),
            te == jv_entries(entries@),
            te.len() == entries@.len(),
            forall|k: int| 0 <= k < entries@.len() ==> te[k] == (
                entries@[k].0@,
                jv(entries@[k].1),
            ),
            jv_entries(out@) =~= extra_of(te.take(i as int)),
        decreases entries@.len() - i,
    {
        if !is_known_key(entries[i].0.as_str()) {
            let ghost prev = out@;
            let key = entries[i].0.clone();
            let val = json_clone(&entries[i].1);
            out.push((key, val));
            proof {
                lemma_jv_entries_index(prev);
                lemma_jv_entries_index(out@);
                assert(te.take(i + 1).drop_last() =~= te.take(i as int));
                assert(te.take(i + 1).last() == te[i as int]);
                assert(jv_entries(out@) =~= jv_entries(prev).push(
                    (key@, jv(entries@[i as int].1)),
                ));
                assert(jv_entries(out@) =~= extra_of(te.take(i + 1)));
            }
        } else {
            proof {
                assert(te.take(i + 1).drop_last() =~= te.take(i as int));
                assert(te.take(i + 1).last() == te[i as int]);
                assert(jv_entries(out@) =~= extra_of(te.take(i + 1)));
            }
        }
        i = i + 1;
    }
    proof {
        assert(te.take(te.len() as int) =~= te);
    }
    out
}


/// The six enumeration names are pairwise distinct strings.
proof fn lemma_keyword_distinct()
    ensures
        "must"@ != "should"@,
        "must"@ != "prefer"@,
        "should"@ != "prefer"@,
        "active"@ != "draft"@,
        "active"@ != "deprecated"@,
        "draft"@ != "deprecated"@,
{
    reveal_strlit("must");
    reveal_strlit("should");
    reveal_strlit("prefer");
    reveal_strlit("active");
    reveal_strlit("draft");
    reveal_strlit("deprecated");
    assert("must"@.len() == 4);
    assert("should"@.len() == 6);
    assert("prefer"@.len() == 6);
    assert("active"@.len() == 6);
    assert("draft"@.len() == 5);
    assert("deprecated"@.len() == 10);
    assert("should"@[0] == 's');
    assert("prefer"@[0] == 'p');
    assert("active"@[0] == 'a');
}

/// Reads and decodes the priority field; absent means must.
pub fn conv_priority(entries: &Vec<(String, Json)>) -> (r: Option<Priority>)
    ensures
        r is Some <==> priority_ok(jv_entries(entries@)),
        r matches Some(p) ==> p == priority_of(jv_entries(entries@)),
{
    proof {
        lemma_keyword_distinct();
    }
    match field_of(entries, "priority") {
        None => Some(Priority::Must),
        Some(x) => {
            proof {
                lemma_jv_variant(*x);
            }
            match x {
                Json::Str(s) => {
                    proof {
                        assert(jv(*x) == JsonV::Str(s@));
                    }
                    if str_eq(s.as_str(), "must") {
                        Some(Priority::Must)
                    } else if str_eq(s.as_str(), "should") {
                        Some(Priority::Should)
                    } else if str_eq(s.as_str(), "prefer") {
                        Some(Priority::Prefer)
                    } else {
                        None
                    }
                },
                _ => None,
            }
        },
    }
}

/// Reads and decodes the status field; absent means active.
pub fn conv_status(entries: &Vec<(String, Json)>) -> (r: Option<Status>)
    ensures
        r is Some <==> status_ok(jv_entries(entries@)),
        r matches Some(p) ==> p == status_of(jv_entries(entries@)),
{
    proof {
        lemma_keyword_distinct();
    }
    match field_of(entries, "status") {
        None => Some(Status::Active),
        Some(Json::Str(s)) => {
            if str_eq(s.as_str(), "active") {
                Some(Status::Active)
            } else if str_eq(s.as_str(), "draft") {
                Some(Status::Draft)
            } else if str_eq(s.as_str(), "deprecated") {
                Some(Status::Deprecated)
            } else {
                None
            }
        },
        Some(x) => {
            proof {
                lemma_jv_variant(*x);
            }
            None
        },
    }
}

/// A value models as a given variant exactly when it is that variant.
pub proof fn lemma_jv_variant(x: Json)
    ensures
        jv(x) is Str <==> x is Str,
        jv(x) is Obj <==> x is Obj,
        jv(x) is Arr <==> x is Arr,
{
}

/// Converts a structural value into a typed contract, reporting the first
/// grammar violation in field order; succeeds exactly on the values the
/// record grammar admits.
pub fn contract_from_json(j: &Json) -> (r: Result<Contract, String>)
    ensures
        r is Ok <==> schema_ok(jv(*j)),
        r matches Ok(c) ==> contract_v(c) == contract_of(jv(*j)),
        r matches Err(msg) ==> Some(msg@) == shape_error(jv(*j)),
{
    let entries = match j {
        Json::Obj(entries) => entries,
        _ => {
            proof {
                lemma_jv_variant(*j);
            }
            return Err(String::from_str("contract must be a table"));
        },
    };
    let ghost e = jv_entries(entries@);
    proof {
        assert(jv(*j) == JsonV::Obj(e));
    }
    let id = match field_of(entries, "id") {
        Some(Json::Str(s)) => s.clone(),
        Some(x) => {
            proof {
                lemma_jv_variant(*x);
            }
            return Err(String::from_str("contract requires a string 'id'"));
        },
        None => {
            return Err(String::from_str("contract requires a string 'id'"));
        },
    };
    let version = match field_of(entries, "version") {
        Some(Json::Str(s)) => s.clone(),
        Some(x) => {
            proof {
                lemma_jv_variant(*x);
            }
            return Err(String::from_str("contract requires a string 'version'"));
        },
        None => {
            return Err(String::from_str("contract requires a string 'version'"));
        },
    };
    let name = match field_of(entries, "name") {
        Some(Json::Str(s)) => s.clone(),
        Some(x) => {
            proof {
                lemma_jv_variant(*x);
            }
            return Err(String::from_str("contract requires a string 'name'"));
        },
        None => {
            return Err(String::from_str("contract requires a string 'name'"));
        },
    };
    let description = match field_of(entries, "description") {
        Some(Json::Str(s)) => s.clone(),
        Some(x) => {
            proof {
                lemma_jv_variant(*x);
            }
            return Err(String::from_str("contract requires a string 'description'"));
        },
        None => {
            return Err(String::from_str("contract requires a string 'description'"));
        },
    };
    let priority = match conv_priority(entries) {
        Some(p) => p,
        None => {
            return Err(String::from_str("'priority' must be one of 'must', 'should', 'prefer'"));
        },
    };
    let status = match conv_status(entries) {
        Some(p) => p,
        None => {
            return Err(String::from_str("'status' must be one of 'active', 'draft', 'deprecated'"));
        },
    };
    let domain = match field_of(entries, "domain") {
        None => None,
        Some(Json::Str(s)) => Some(s.clone()),
        Some(x) => {
            proof {
                lemma_jv_variant(*x);
            }
            return Err(String::from_str("'domain' must be a string"));
        },
    };
    let tags = match field_of(entries, "tags") {
        None => None,
        Some(Json::Arr(items)) => {
            match conv_strs(items) {
                Some(list) => Some(list),
                None => {
                    return Err(String::from_str("'tags' must be an array of strings"));
                },
            }
        },
        Some(x) => {
            proof {
                lemma_jv_variant(*x);
            }
            return Err(String::from_str("'tags' must be an array of strings"));
        },
    };
    let applies_to = match field_of(entries, "applies_to") {
        None => None,
        Some(Json::Str(s)) => Some(AppliesTo::Single(s.clone())),
        Some(Json::Arr(items)) => {
            match conv_strs(items) {
                Some(list) => Some(AppliesTo::Multiple(list)),
                None => {
                    return Err(
                        String::from_str("'applies_to' must be a string or an array of strings"),
                    );
                },
            }
        },
        Some(x) => {
            proof {
                lemma_jv_variant(*x);
            }
            return Err(String::from_str("'applies_to' must be a string or an array of strings"));
        },
    };
    let trigger = match field_of(entries, "trigger") {
        None => None,
        Some(x) => {
            match conv_trigger(x) {
                Some(t) => Some(t),
                None => {
                    proof {
                        lemma_jv_variant(*x);
                    }
                    return Err(
                        String::from_str("'trigger' must be a table with an optional string 'type'"),
                    );
                },
            }
        },
    };
    let files = match field_of(entries, "files") {
        None => None,
        Some(Json::Arr(items)) => {
            match conv_strs(items) {
                Some(list) => Some(list),
                None => {
                    return Err(String::from_str("'files' must be an array of strings"));
                },
            }
        },
        Some(x) => {
            proof {
                lemma_jv_variant(*x);
            }
            return Err(String::from_str("'files' must be an array of strings"));
        },
    };
    let rules = match field_of(entries, "rules") {
        None => None,
        Some(Json::Arr(items)) => {
            proof {
                lemma_jv_list_index(items@);
            }
            match conv_rules(items) {
                Some(list) => Some(list),
                None => {
                    return Err(
                        String::from_str(
                            "'rules' must be an array of tables with string 'id' and 'description'",
                        ),
                    );
                },
            }
        },
        Some(x) => {
            proof {
                lemma_jv_variant(*x);
            }
            return Err(
                String::from_str(
                    "'rules' must be an array of tables with string 'id' and 'description'",
                ),
            );
        },
    };
    let notes = match field_of(entries, "notes") {
        None => None,
        Some(Json::Str(s)) => Some(s.clone()),
        Some(x) => {
            proof {
                lemma_jv_variant(*x);
            }
            return Err(String::from_str("'notes' must be a string"));
        },
    };
    let changelog = match field_of(entries, "changelog") {
        None => None,
        Some(Json::Arr(items)) => {
            proof {
                lemma_jv_list_index(items@);
            }
            match conv_entries(items) {
                Some(list) => Some(list),
                None => {
                    return Err(
                        String::from_str(
                            "'changelog' must be an array of tables with string 'version' and 'description'",
                        ),
                    );
                },
            }
        },
        Some(x) => {
            proof {
                lemma_jv_variant(*x);
            }
            return Err(
                String::from_str(
                    "'changelog' must be an array of tables with string 'version' and 'description'",
                ),
            );
        },
    };
    let extra = conv_extra(entries);
    let c = Contract {
        id,
        version,
        name,
        description,
        priority,
        status,
        domain,
        tags,
        applies_to,
        trigger,
        files,
        rules,
        notes,
        changelog,
        extra,
    };
    proof {
        let cm = contract_v(c);
        let sm = contract_of(jv(*j));
        assert(cm.id =~= sm.id);
        assert(cm.version =~= sm.version);
        assert(cm.name =~= sm.name);
        assert(cm.description =~= sm.description);
        assert(cm.priority == sm.priority);
        assert(cm.status == sm.status);
        assert(cm.domain =~~= sm.domain);
        assert(cm.tags =~~= sm.tags);
        assert(cm.applies_to =~~= sm.applies_to);
        assert(cm.trigger =~~= sm.trigger);
        assert(cm.files =~~= sm.files);
        assert(cm.rules =~~= sm.rules);
        assert(cm.notes =~~= sm.notes);
        assert(cm.changelog =~~= sm.changelog);
        assert(cm.extra =~~= sm.extra);
        assert(contract_v(c) =~~= contract_of(jv(*j)));
    }
    Ok(c)
}

/// The serialized name of a priority.
pub open spec fn priority_name(p: Priority) -> Seq<char> {
    match p {
        Priority::Must => "must"@,
        Priority::Should => "should"@,
        Priority::Prefer => "prefer"@,
    }
}

/// The serialized name of a status.
pub open spec fn status_name(p: Status) -> Seq<char> {
    match p {
        Status::Active => "active"@,
        Status::Draft => "draft"@,
        Status::Deprecated => "deprecated"@,
    }
}

/// A string list as an array value.
pub open spec fn canon_strs(ss: Seq<Seq<char>>) -> JsonV {
    JsonV::Arr(ss.map_values(|s: Seq<char>| JsonV::Str(s)))
}

/// An optional field as a zero- or one-entry segment.
pub open spec fn opt_entry(key: Seq<char>, o: Option<JsonV>) -> Seq<(Seq<char>, JsonV)> {
    match o {
        Some(v) => seq![(key, v)],
        None => Seq::empty(),
    }
}

/// The canonical table of a rule.
pub open spec fn canon_rule(r: RuleV) -> JsonV {
    JsonV::Obj(
        seq![("id"@, JsonV::Str(r.id)), ("description"@, JsonV::Str(r.description))] + opt_entry(
            "files"@,
            match r.files {
                Some(fs) => Some(canon_strs(fs)),
                None => None,
            },
        ) + opt_entry(
            "constraints"@,
            match r.constraints {
                Some(cs) => Some(canon_strs(cs)),
                None => None,
            },
        ),
    )
}

/// The canonical table of a change-log entry.
pub open spec fn canon_entry(e: ChangelogEntryV) -> JsonV {
    JsonV::Obj(
        seq![("version"@, JsonV::Str(e.version))] + opt_entry(
            "date"@,
            match e.date {
                Some(d) => Some(JsonV::Str(d)),
                None => None,
            },
        ) + seq![("description"@, JsonV::Str(e.description))],
    )
}

/// The canonical table of a trigger.
pub open spec fn canon_trigger(t: TriggerV) -> JsonV {
    JsonV::Obj(
        opt_entry(
            "type"@,
            match t.kind {
                Some(k) => Some(JsonV::Str(k)),
                None => None,
            },
        ) + t.extra,
    )
}

/// The canonical applies-to value.
pub open spec fn canon_applies(a: AppliesToV) -> JsonV {
    match a {
        AppliesToV::Single(s) => JsonV::Str(s),
        AppliesToV::Multiple(v) => canon_strs(v),
    }
}

/// The six required fields of the canonical form, in declaration order.
pub open spec fn canon_required(cv: ContractV) -> Seq<(Seq<char>, JsonV)> {
    seq![
        ("id"@, JsonV::Str(cv.id)),
        ("version"@, JsonV::Str(cv.version)),
        ("name"@, JsonV::Str(cv.name)),
        ("description"@, JsonV::Str(cv.description)),
        ("priority"@, JsonV::Str(priority_name(cv.priority))),
        ("status"@, JsonV::Str(status_name(cv.status))),
    ]
}

/// The front of the canonical entry list: the declared fields through the
/// trigger, in declaration order, absent optional fields omitted.
pub open spec fn canon_front(cv: ContractV) -> Seq<(Seq<char>, JsonV)> {
    canon_required(cv) + opt_entry(
        "domain"@,
        match cv.domain {
            Some(d) => Some(JsonV::Str(d)),
            None => None,
        },
    ) + opt_entry(
        "tags"@,
        match cv.tags {
            Some(ts) => Some(canon_strs(ts)),
            None => None,
        },
    ) + opt_entry(
        "applies_to"@,
        match cv.applies_to {
            Some(a) => Some(canon_applies(a)),
            None => None,
        },
    ) + opt_entry(
        "trigger"@,
        match cv.trigger {
            Some(t) => Some(canon_trigger(t)),
            None => None,
        },
    )
}

/// The remaining declared fields of the canonical form.
pub open spec fn canon_entries(cv: ContractV) -> Seq<(Seq<char>, JsonV)> {
    canon_front(cv) + opt_entry(
        "files"@,
        match cv.files {
            Some(fs) => Some(canon_strs(fs)),
            None => None,
        },
    ) + opt_entry(
        "rules"@,
        match cv.rules {
            Some(rs) => Some(JsonV::Arr(rs.map_values(|r: RuleV| canon_rule(r)))),
            None => None,
        },
    ) + opt_entry(
        "notes"@,
        match cv.notes {
            Some(n) => Some(JsonV::Str(n)),
            None => None,
        },
    ) + opt_entry(
        "changelog"@,
        match cv.changelog {
            Some(es) => Some(JsonV::Arr(es.map_values(|e: ChangelogEntryV| canon_entry(e)))),
            None => None,
        },
    ) + cv.extra
}

/// The canonical structural form of a contract.
pub open spec fn canon_json(cv: ContractV) -> JsonV {
    JsonV::Obj(canon_entries(cv))
}

/// The serialized name of a priority, as a value.
pub fn priority_to_string(p: &Priority) -> (r: String)
    ensures
        r@ == priority_name(*p),
{
    match p {
        Priority::Must => String::from_str("must"),
        Priority::Should => String::from_str("should"),
        Priority::Prefer => String::from_str("prefer"),
    }
}

/// The serialized name of a status, as a value.
pub fn status_to_string(p: &Status) -> (r: String)
    ensures
        r@ == status_name(*p),
{
    match p {
        Status::Active => String::from_str("active"),
        Status::Draft => String::from_str("draft"),
        Status::Deprecated => String::from_str("deprecated"),
    }
}

/// A string list as an array value.
pub fn strs_to_json(v: &Vec<String>) -> (r: Json)
    ensures
        jv(r) == canon_strs(strs_view(v@)),
{
    let mut items: Vec<Json> = Vec::new();
    let mut i: usize = 0;
    while i < v.len()
        invariant
            i <= v@.len(),
            items@.len() == i,
            forall|k: int| 0 <= k < i ==> jv(items@[k]) == JsonV::Str(v@[k]@),
        decreases v@.len() - i,
    {
        items.push(Json::Str(v[i].clone()));
        i = i + 1;
    }
    proof {
        lemma_jv_list_index(items@);
        assert(jv_list(items@) =~= canon_strs(strs_view(v@))->Arr_0);
        assert(jv(Json::Arr(items)) =~= canon_strs(strs_view(v@)));
    }
    Json::Arr(items)
}

/// The canonical table of a rule.
pub fn rule_to_json(r: &Rule) -> (out: Json)
    ensures
        jv(out) == canon_rule(rule_v(*r)),
{
    let mut entries: Vec<(String, Json)> = Vec::new();
    entries.push((String::from_str("id"), Json::Str(r.id.clone())));
    entries.push((String::from_str("description"), Json::Str(r.description.clone())));
    if let Some(fs) = &r.files {
        entries.push((String::from_str("files"), strs_to_json(fs)));
    }
    if let Some(cs) = &r.constraints {
        entries.push((String::from_str("constraints"), strs_to_json(cs)));
    }
    proof {
        lemma_jv_entries_index(entries@);
        assert(jv_entries(entries@) =~= canon_rule(rule_v(*r))->Obj_0);
        assert(jv(Json::Obj(entries)) =~= canon_rule(rule_v(*r)));
    }
    Json::Obj(entries)
}

/// The canonical table of a change-log entry.
pub fn entry_to_json(e: &ChangelogEntry) -> (out: Json)
    ensures
        jv(out) == canon_entry(changelog_entry_v(*e)),
{
    let mut entries: Vec<(String, Json)> = Vec::new();
    entries.push((String::from_str("version"), Json::Str(e.version.clone())));
    if let Some(d) = &e.date {
        entries.push((String::from_str("date"), Json::Str(d.clone())));
    }
    entries.push((String::from_str("description"), Json::Str(e.description.clone())));
    proof {
        lemma_jv_entries_index(entries@);
        assert(jv_entries(entries@) =~= canon_entry(changelog_entry_v(*e))->Obj_0);
        assert(jv(Json::Obj(entries)) =~= canon_entry(changelog_entry_v(*e)));
    }
    Json::Obj(entries)
}

/// The canonical table of a trigger.
pub fn trigger_to_json(t: &Trigger) -> (out: Json)
    ensures
        jv(out) == canon_trigger(trigger_v(*t)),
{
    let mut entries: Vec<(String, Json)> = Vec::new();
    if let Some(k) = &t.kind {
        entries.push((String::from_str("type"), Json::Str(k.clone())));
    }
    let ghost head = jv_entries(entries@);
    proof {
        lemma_jv_entries_index(entries@);
        assert(head =~= opt_entry(
            "type"@,
            match trigger_v(*t).kind {
                Some(kk) => Some(JsonV::Str(kk)),
                None => None,
            },
        ));
    }
    let mut i: usize = 0;
    while i < t.extra.len()
        invariant
            i <= t.extra@.len(),
            jv_entries(entries@) =~= head + jv_entries(t.extra@).take(i as int),
        decreases t.extra@.len() - i,
    {
        let ghost prev = entries@;
        let key = t.extra[i].0.clone();
        let val = json_clone(&t.extra[i].1);
        entries.push((key, val));
        proof {
            lemma_jv_entries_index(prev);
            lemma_jv_entries_index(entries@);
            lemma_jv_entries_index(t.extra@);
            assert(jv_entries(entries@) =~= jv_entries(prev).push(
                (key@, jv(t.extra@[i as int].1)),
            ));
            assert(jv_entries(t.extra@).take(i + 1) =~= jv_entries(t.extra@).take(
                i as int,
            ).push(jv_entries(t.extra@)[i as int]));
            assert(jv_entries(entries@) =~= head + jv_entries(t.extra@).take(i + 1));
        }
        i = i + 1;
    }
    proof {
        lemma_jv_entries_index(t.extra@);
        assert(jv_entries(t.extra@).take(t.extra@.len() as int) =~= jv_entries(t.extra@));
        assert(jv_entries(entries@) =~= canon_trigger(trigger_v(*t))->Obj_0);
        assert(jv(Json::Obj(entries)) =~= canon_trigger(trigger_v(*t)));
    }
    Json::Obj(entries)
}

/// The canonical structural form of a contract: declared fields first, in
/// declaration order, absent options omitted, the extra bag last.
/// Builds the front of the canonical entry list.
#[verifier::rlimit(60)]
fn canon_front_entries(c: &Contract) -> (entries: Vec<(String, Json)>)
    ensures
        jv_entries(entries@) == canon_front(contract_v(*c)),
{
    let ghost cv = contract_v(*c);
    let mut entries: Vec<(String, Json)> = Vec::new();
    entries.push((String::from_str("id"), Json::Str(c.id.clone())));
    entries.push((String::from_str("version"), Json::Str(c.version.clone())));
    entries.push((String::from_str("name"), Json::Str(c.name.clone())));
    entries.push((String::from_str("description"), Json::Str(c.description.clone())));
    entries.push((String::from_str("priority"), Json::Str(priority_to_string(&c.priority))));
    entries.push((String::from_str("status"), Json::Str(status_to_string(&c.status))));
    proof {
        lemma_jv_entries_index(entries@);
        assert(jv_entries(entries@) =~= canon_required(cv));
    }
    let ghost e1 = canon_required(cv) + opt_entry(
        "domain"@,
        match cv.domain {
            Some(d) => Some(JsonV::Str(d)),
            None => None,
        },
    );
    if let Some(d) = &c.domain {
        let ghost prev = entries@;
        entries.push((String::from_str("domain"), Json::Str(d.clone())));
        proof {
            lemma_jv_entries_push(prev, entries@.last());
        }
    }
    proof {
        assert(jv_entries(entries@) =~= e1);
    }
    let ghost e2 = e1 + opt_entry(
        "tags"@,
        match cv.tags {
            Some(ts) => Some(canon_strs(ts)),
            None => None,
        },
    );
    if let Some(ts) = &c.tags {
        let ghost prev = entries@;
        entries.push((String::from_str("tags"), strs_to_json(ts)));
        proof {
            lemma_jv_entries_push(prev, entries@.last());
        }
    }
    proof {
        assert(jv_entries(entries@) =~= e2);
    }
    let ghost e3 = e2 + opt_entry(
        "applies_to"@,
        match cv.applies_to {
            Some(a) => Some(canon_applies(a)),
            None => None,
        },
    );
    match &c.applies_to {
        None => {},
        Some(AppliesTo::Single(p)) => {
            let ghost prev = entries@;
            entries.push((String::from_str("applies_to"), Json::Str(p.clone())));
            proof {
                lemma_jv_entries_push(prev, entries@.last());
            }
        },
        Some(AppliesTo::Multiple(v)) => {
            let ghost prev = entries@;
            entries.push((String::from_str("applies_to"), strs_to_json(v)));
            proof {
                lemma_jv_entries_push(prev, entries@.last());
            }
        },
    }
    proof {
        assert(jv_entries(entries@) =~= e3);
    }
    let ghost e4 = e3 + opt_entry(
        "trigger"@,
        match cv.trigger {
            Some(t) => Some(canon_trigger(t)),
            None => None,
        },
    );
    if let Some(t) = &c.trigger {
        let ghost prev = entries@;
        entries.push((String::from_str("trigger"), trigger_to_json(t)));
        proof {
            lemma_jv_entries_push(prev, entries@.last());
        }
    }
    proof {
        assert(jv_entries(entries@) =~= e4);
    }
    proof {
        assert(e4 =~= canon_front(cv));
    }
    entries
}

/// The canonical structural form of a contract: declared fields first, in
/// declaration order, absent options omitted, the extra bag last.
#[verifier::rlimit(60)]
pub fn contract_to_json(c: &Contract) -> (out: Json)
    ensures
        jv(out) == canon_json(contract_v(*c)),
{
    let ghost cv = contract_v(*c);
    let mut entries = canon_front_entries(c);
    let ghost e4 = canon_front(cv);
    let ghost e5 = e4 + opt_entry(
        "files"@,
        match cv.files {
            Some(fs) => Some(canon_strs(fs)),
            None => None,
        },
    );
    if let Some(fs) = &c.files {
        let ghost prev = entries@;
        entries.push((String::from_str("files"), strs_to_json(fs)));
        proof {
            lemma_jv_entries_push(prev, entries@.last());
        }
    }
    proof {
        assert(jv_entries(entries@) =~= e5);
    }
    let ghost e6 = e5 + opt_entry(
        "rules"@,
        match cv.rules {
            Some(rs) => Some(JsonV::Arr(rs.map_values(|r: RuleV| canon_rule(r)))),
            None => None,
        },
    );
    if let Some(rs) = &c.rules {
        let mut items: Vec<Json> = Vec::new();
        let mut i: usize = 0;
        while i < rs.len()
            invariant
                c.rules == Some(*rs),
                i <= rs@.len(),
                items@.len() == i,
                forall|k: int| 0 <= k < i ==> jv(items@[k]) == canon_rule(rule_v(rs@[k])),
            decreases rs@.len() - i,
        {
            items.push(rule_to_json(&rs[i]));
            i = i + 1;
        }
        proof {
            lemma_jv_list_index(items@);
            assert(jv_list(items@) =~= rs@.map_values(|r: Rule| rule_v(r)).map_values(
                |r: RuleV| canon_rule(r),
            ));
        }
        let ghost prev = entries@;
        entries.push((String::from_str("rules"), Json::Arr(items)));
        proof {
            lemma_jv_entries_push(prev, entries@.last());
        }
    }
    proof {
        assert(jv_entries(entries@) =~= e6);
    }
    let ghost e7 = e6 + opt_entry(
        "notes"@,
        match cv.notes {
            Some(n) => Some(JsonV::Str(n)),
            None => None,
        },
    );
    if let Some(n) = &c.notes {
        let ghost prev = entries@;
        entries.push((String::from_str("notes"), Json::Str(n.clone())));
        proof {
            lemma_jv_entries_push(prev, entries@.last());
        }
    }
    proof {
        assert(jv_entries(entries@) =~= e7);
    }
    let ghost e8 = e7 + opt_entry(
        "changelog"@,
        match cv.changelog {
            Some(es) => Some(JsonV::Arr(es.map_values(|e: ChangelogEntryV| canon_entry(e)))),
            None => None,
        },
    );
    if let Some(es) = &c.changelog {
        let mut items: Vec<Json> = Vec::new();
        let mut i: usize = 0;
        while i < es.len()
            invariant
                c.changelog == Some(*es),
                i <= es@.len(),
                items@.len() == i,
                forall|k: int| 0 <= k < i ==> jv(items@[k]) == canon_entry(
                    changelog_entry_v(es@[k]),
                ),
            decreases es@.len() - i,
        {
            items.push(entry_to_json(&es[i]));
            i = i + 1;
        }
        proof {
            lemma_jv_list_index(items@);
            assert(jv_list(items@) =~= es@.map_values(
                |e: ChangelogEntry| changelog_entry_v(e),
            ).map_values(|e: ChangelogEntryV| canon_entry(e)));
        }
        let ghost prev = entries@;
        entries.push((String::from_str("changelog"), Json::Arr(items)));
        proof {
            lemma_jv_entries_push(prev, entries@.last());
        }
    }
    proof {
        assert(jv_entries(entries@) =~= e8);
    }
    let ghost head = e8;
    let mut i: usize = 0;
    while i < c.extra.len()
        invariant
            i <= c.extra@.len(),
            jv_entries(entries@) =~= head + jv_entries(c.extra@).take(i as int),
        decreases c.extra@.len() - i,
    {
        let ghost prev = entries@;
        let key = c.extra[i].0.clone();
        let val = json_clone(&c.extra[i].1);
        entries.push((key, val));
        proof {
            lemma_jv_entries_push(prev, entries@.last());
            lemma_jv_entries_index(c.extra@);
            assert(jv_entries(c.extra@).take(i + 1) =~= jv_entries(c.extra@).take(
                i as int,
            ).push(jv_entries(c.extra@)[i as int]));
            assert(jv_entries(entries@) =~= head + jv_entries(c.extra@).take(i + 1));
        }
        i = i + 1;
    }
    proof {
        lemma_jv_entries_index(c.extra@);
        assert(jv_entries(c.extra@).take(c.extra@.len() as int) =~= jv_entries(c.extra@));
        assert(jv_entries(entries@) =~= canon_entries(cv));
        assert(jv(Json::Obj(entries)) =~= canon_json(cv));
    }
    Json::Obj(entries)
}

/// The lengths and distinguishing characters of the declared field names,
/// from which any two distinct names can be told apart.
proof fn lemma_field_names()
    ensures
        "id"@.len() == 2,
        "version"@.len() == 7,
        "name"@.len() == 4,
        "description"@.len() == 11,
        "priority"@.len() == 8,
        "status"@.len() == 6,
        "domain"@.len() == 6,
        "tags"@.len() == 4,
        "applies_to"@.len() == 10,
        "trigger"@.len() == 7,
        "files"@.len() == 5,
        "rules"@.len() == 5,
        "notes"@.len() == 5,
        "changelog"@.len() == 9,
        "type"@.len() == 4,
        "date"@.len() == 4,
        "status"@[0] == 's',
        "domain"@[0] == 'd',
        "name"@[0] == 'n',
        "tags"@[0] == 't',
        "type"@[0] == 't',
        "tags"@[1] == 'a',
        "type"@[1] == 'y',
        "date"@[0] == 'd',
        "version"@[0] == 'v',
        "trigger"@[0] == 't',
        "files"@[0] == 'f',
        "rules"@[0] == 'r',
        "notes"@[0] == 'n',
{
    reveal_strlit("id");
    reveal_strlit("version");
    reveal_strlit("name");
    reveal_strlit("description");
    reveal_strlit("priority");
    reveal_strlit("status");
    reveal_strlit("domain");
    reveal_strlit("tags");
    reveal_strlit("applies_to");
    reveal_strlit("trigger");
    reveal_strlit("files");
    reveal_strlit("rules");
    reveal_strlit("notes");
    reveal_strlit("changelog");
    reveal_strlit("type");
    reveal_strlit("date");
}

/// The extra bag never holds an interpreted key.
proof fn lemma_extra_of_clean(e: Seq<(Seq<char>, JsonV)>)
    ensures
        forall|i: int| 0 <= i < extra_of(e).len() ==> !known_key(
            (#[trigger] extra_of(e)[i]).0,
        ),
    decreases e,
{
    if e.len() > 0 {
        lemma_extra_of_clean(e.drop_last());
        let pre = extra_of(e.drop_last());
        assert forall|i: int| 0 <= i < extra_of(e).len() implies !known_key(
            extra_of(e)[i].0,
        ) by {
            if i < pre.len() {
                assert(extra_of(e)[i] == pre[i]);
            } else {
                assert(extra_of(e)[i] == e.last());
            }
        }
    }
}

/// The trigger's extra data never holds the kind discriminator.
proof fn lemma_trig_extra_clean(te: Seq<(Seq<char>, JsonV)>)
    ensures
        forall|i: int| 0 <= i < trig_extra(te).len() ==> (#[trigger] trig_extra(te)[i]).0
            != "type"@,
    decreases te,
{
    if te.len() > 0 {
        lemma_trig_extra_clean(te.drop_last());
        let pre = trig_extra(te.drop_last());
        assert forall|i: int| 0 <= i < trig_extra(te).len() implies trig_extra(te)[i].0
            != "type"@ by {
            if i < pre.len() {
                assert(trig_extra(te)[i] == pre[i]);
            } else {
                assert(trig_extra(te)[i] == te.last());
            }
        }
    }
}

/// The extra bag of a clean entry list is that list.
proof fn lemma_extra_of_identity(e: Seq<(Seq<char>, JsonV)>)
    requires
        forall|i: int| 0 <= i < e.len() ==> !known_key((#[trigger] e[i]).0),
    ensures
        extra_of(e) == e,
    decreases e,
{
    if e.len() > 0 {
        lemma_extra_of_identity(e.drop_last());
        assert(extra_of(e) =~= e);
    }
}

/// The trigger extra of a clean entry list is that list.
proof fn lemma_trig_extra_identity(te: Seq<(Seq<char>, JsonV)>)
    requires
        forall|i: int| 0 <= i < te.len() ==> (#[trigger] te[i]).0 != "type"@,
    ensures
        trig_extra(te) == te,
    decreases te,
{
    if te.len() > 0 {
        lemma_trig_extra_identity(te.drop_last());
        assert(trig_extra(te) =~= te);
    }
}

/// Splitting off the extra bag distributes over concatenation.
proof fn lemma_extra_of_concat(a: Seq<(Seq<char>, JsonV)>, b: Seq<(Seq<char>, JsonV)>)
    ensures
        extra_of(a + b) == extra_of(a) + extra_of(b),
    decreases b,
{
    if b.len() == 0 {
        assert(a + b =~= a);
        assert(extra_of(a) + extra_of(b) =~= extra_of(a));
    } else {
        assert((a + b).drop_last() =~= a + b.drop_last());
        assert((a + b).last() == b.last());
        lemma_extra_of_concat(a, b.drop_last());
        assert(extra_of(a + b) =~= extra_of(a) + extra_of(b));
    }
}

/// Splitting off the trigger's extra data distributes over concatenation.
proof fn lemma_trig_extra_concat(a: Seq<(Seq<char>, JsonV)>, b: Seq<(Seq<char>, JsonV)>)
    ensures
        trig_extra(a + b) == trig_extra(a) + trig_extra(b),
    decreases b,
{
    if b.len() == 0 {
        assert(a + b =~= a);
        assert(trig_extra(a) + trig_extra(b) =~= trig_extra(a));
    } else {
        assert((a + b).drop_last() =~= a + b.drop_last());
        assert((a + b).last() == b.last());
        lemma_trig_extra_concat(a, b.drop_last());
        assert(trig_extra(a + b) =~= trig_extra(a) + trig_extra(b));
    }
}

/// The strings of a canonical string array are the original strings.
proof fn lemma_strs_roundtrip(ss: Seq<Seq<char>>)
    ensures
        canon_strs(ss) matches JsonV::Arr(items) && all_strs(items) && strs_of(items) == ss,
{
    let items = ss.map_values(|t: Seq<char>| JsonV::Str(t));
    assert(forall|i: int| 0 <= i < items.len() ==> items[i] is Str);
    assert(strs_of(items) =~= ss);
}

/// A canonical rule table is well-shaped and reads back as the same rule.
proof fn lemma_rule_roundtrip(r: RuleV)
    ensures
        rule_ok(canon_rule(r)),
        rule_of(canon_rule(r)) == r,
{
    lemma_field_names();
    reveal_strlit("constraints");
    assert("constraints"@.len() == 11);
    assert("constraints"@[0] == 'c');
    assert("id"@ != "description"@);
    assert("id"@ != "files"@);
    assert("id"@ != "constraints"@);
    assert("description"@ != "files"@);
    reveal_strlit("description");
    assert("description"@[0] == 'd');
    assert("description"@ != "constraints"@);
    assert("files"@ != "constraints"@);
    reveal_with_fuel(crate::json::ov_get, 4);
    let re = canon_rule(r)->Obj_0;
    let head: Seq<(Seq<char>, JsonV)> = seq![
        ("id"@, JsonV::Str(r.id)),
        ("description"@, JsonV::Str(r.description)),
    ];
    let segf = opt_entry(
        "files"@,
        match r.files {
            Some(fs) => Some(canon_strs(fs)),
            None => None,
        },
    );
    let segc = opt_entry(
        "constraints"@,
        match r.constraints {
            Some(cs) => Some(canon_strs(cs)),
            None => None,
        },
    );
    assert(re =~= head + segf + segc);
    let hd = head.drop_first();
    assert(hd =~= seq![("description"@, JsonV::Str(r.description))]);
    assert(ov_get(head, "id"@) == Some(JsonV::Str(r.id)));
    assert(ov_get(head, "description"@) == Some(JsonV::Str(r.description)));
    lemma_ov_get_absent(head, "files"@);
    lemma_ov_get_absent(head, "constraints"@);
    lemma_ov_get_concat(head, segf + segc, "id"@);
    lemma_ov_get_concat(head, segf + segc, "description"@);
    lemma_ov_get_concat(head, segf + segc, "files"@);
    lemma_ov_get_concat(head, segf + segc, "constraints"@);
    lemma_ov_get_concat(segf, segc, "files"@);
    lemma_ov_get_concat(segf, segc, "constraints"@);
    assert(ov_get(re, "id"@) == Some(JsonV::Str(r.id)));
    assert(ov_get(re, "description"@) == Some(JsonV::Str(r.description)));
    match r.files {
        Some(fs) => {
            lemma_strs_roundtrip(fs);
            assert(ov_get(segf, "files"@) == Some(canon_strs(fs)));
            assert(ov_get(re, "files"@) == Some(canon_strs(fs)));
        },
        None => {
            lemma_ov_get_absent(segf, "files"@);
            lemma_ov_get_absent(segc, "files"@);
            assert(ov_get(re, "files"@) is None);
        },
    }
    match r.constraints {
        Some(cs) => {
            lemma_strs_roundtrip(cs);
            lemma_ov_get_absent(segf, "constraints"@);
            assert(ov_get(segc, "constraints"@) == Some(canon_strs(cs)));
            assert(ov_get(re, "constraints"@) == Some(canon_strs(cs)));
        },
        None => {
            lemma_ov_get_absent(segf, "constraints"@);
            lemma_ov_get_absent(segc, "constraints"@);
            assert(ov_get(re, "constraints"@) is None);
        },
    }
    assert(rule_of(canon_rule(r)) =~~= r);
}

/// A canonical change-log table is well-shaped and reads back the same.
proof fn lemma_entry_roundtrip(e: ChangelogEntryV)
    ensures
        entry_ok(canon_entry(e)),
        entry_of(canon_entry(e)) == e,
{
    lemma_field_names();
    assert("version"@ != "date"@);
    assert("version"@ != "description"@);
    assert("date"@ != "description"@);
    reveal_with_fuel(crate::json::ov_get, 4);
    let ce = canon_entry(e)->Obj_0;
    let head: Seq<(Seq<char>, JsonV)> = seq![("version"@, JsonV::Str(e.version))];
    let segd = opt_entry(
        "date"@,
        match e.date {
            Some(d) => Some(JsonV::Str(d)),
            None => None,
        },
    );
    let tail: Seq<(Seq<char>, JsonV)> = seq![("description"@, JsonV::Str(e.description))];
    assert(ce =~= head + segd + tail);
    assert(ov_get(head, "version"@) == Some(JsonV::Str(e.version)));
    lemma_ov_get_absent(head, "date"@);
    lemma_ov_get_absent(head, "description"@);
    lemma_ov_get_concat(head, segd + tail, "version"@);
    lemma_ov_get_concat(head, segd + tail, "date"@);
    lemma_ov_get_concat(head, segd + tail, "description"@);
    lemma_ov_get_concat(segd, tail, "date"@);
    lemma_ov_get_concat(segd, tail, "description"@);
    assert(ov_get(ce, "version"@) == Some(JsonV::Str(e.version)));
    match e.date {
        Some(d) => {
            assert(ov_get(segd, "date"@) == Some(JsonV::Str(d)));
            lemma_ov_get_absent(segd, "description"@);
            assert(ov_get(ce, "date"@) == Some(JsonV::Str(d)));
        },
        None => {
            lemma_ov_get_absent(segd, "date"@);
            lemma_ov_get_absent(segd, "description"@);
            lemma_ov_get_absent(tail, "date"@);
            assert(ov_get(ce, "date"@) is None);
        },
    }
    assert(ov_get(tail, "description"@) == Some(JsonV::Str(e.description)));
    assert(ov_get(ce, "description"@) == Some(JsonV::Str(e.description)));
    assert(entry_of(canon_entry(e)) =~~= e);
}


/// A well-formed extra bag binds none of the declared field names.
proof fn lemma_extra_absent(cv: ContractV)
    requires
        forall|i: int| 0 <= i < cv.extra.len() ==> !known_key((#[trigger] cv.extra[i]).0),
    ensures
        ov_get(cv.extra, "id"@) is None,
        ov_get(cv.extra, "version"@) is None,
        ov_get(cv.extra, "name"@) is None,
        ov_get(cv.extra, "description"@) is None,
        ov_get(cv.extra, "priority"@) is None,
        ov_get(cv.extra, "status"@) is None,
        ov_get(cv.extra, "domain"@) is None,
        ov_get(cv.extra, "tags"@) is None,
        ov_get(cv.extra, "applies_to"@) is None,
        ov_get(cv.extra, "trigger"@) is None,
        ov_get(cv.extra, "files"@) is None,
        ov_get(cv.extra, "rules"@) is None,
        ov_get(cv.extra, "notes"@) is None,
        ov_get(cv.extra, "changelog"@) is None,
{
    lemma_ov_get_absent(cv.extra, "id"@);
    lemma_ov_get_absent(cv.extra, "version"@);
    lemma_ov_get_absent(cv.extra, "name"@);
    lemma_ov_get_absent(cv.extra, "description"@);
    lemma_ov_get_absent(cv.extra, "priority"@);
    lemma_ov_get_absent(cv.extra, "status"@);
    lemma_ov_get_absent(cv.extra, "domain"@);
    lemma_ov_get_absent(cv.extra, "tags"@);
    lemma_ov_get_absent(cv.extra, "applies_to"@);
    lemma_ov_get_absent(cv.extra, "trigger"@);
    lemma_ov_get_absent(cv.extra, "files"@);
    lemma_ov_get_absent(cv.extra, "rules"@);
    lemma_ov_get_absent(cv.extra, "notes"@);
    lemma_ov_get_absent(cv.extra, "changelog"@);
}

/// A contract model is well formed when its open extra bag holds no
/// interpreted key and its trigger's extra data does not hold the kind
/// discriminator; every model read out of a structural value is.
pub open spec fn wf_contract(cv: ContractV) -> bool {
    &&& (forall|i: int| 0 <= i < cv.extra.len() ==> !known_key((#[trigger] cv.extra[i]).0))
    &&& (cv.trigger matches Some(t) ==> forall|i: int|
        0 <= i < t.extra.len() ==> (#[trigger] t.extra[i]).0 != "type"@)
}

/// Whatever structural value a contract was read from, the model is well
/// formed.
pub proof fn lemma_contract_of_wf(m: JsonV)
    ensures
        wf_contract(contract_of(m)),
{
    lemma_extra_of_clean(m->Obj_0);
    match ov_get(m->Obj_0, "trigger"@) {
        Some(JsonV::Obj(te)) => {
            lemma_trig_extra_clean(te);
        },
        _ => {},
    }
}

/// The six required fields of the canonical form look up to themselves.
#[verifier::rlimit(100)]
proof fn lemma_canon_lookups_required(cv: ContractV)
    ensures
        ov_get(canon_entries(cv), "id"@) == Some(JsonV::Str(cv.id)),
        ov_get(canon_entries(cv), "version"@) == Some(JsonV::Str(cv.version)),
        ov_get(canon_entries(cv), "name"@) == Some(JsonV::Str(cv.name)),
        ov_get(canon_entries(cv), "description"@) == Some(JsonV::Str(cv.description)),
        ov_get(canon_entries(cv), "priority"@) == Some(JsonV::Str(priority_name(cv.priority))),
        ov_get(canon_entries(cv), "status"@) == Some(JsonV::Str(status_name(cv.status))),
{
    lemma_field_names();
    reveal_strlit("description");
    reveal_strlit("changelog");
    assert("description"@[0] == 'd');
    assert("changelog"@[0] == 'c');
    let s1 = opt_entry(
        "domain"@,
        match cv.domain {
            Some(d) => Some(JsonV::Str(d)),
            None => None,
        },
    );
    let s2 = opt_entry(
        "tags"@,
        match cv.tags {
            Some(ts) => Some(canon_strs(ts)),
            None => None,
        },
    );
    let s3 = opt_entry(
        "applies_to"@,
        match cv.applies_to {
            Some(a) => Some(canon_applies(a)),
            None => None,
        },
    );
    let s4 = opt_entry(
        "trigger"@,
        match cv.trigger {
            Some(t) => Some(canon_trigger(t)),
            None => None,
        },
    );
    let s5 = opt_entry(
        "files"@,
        match cv.files {
            Some(fs) => Some(canon_strs(fs)),
            None => None,
        },
    );
    let s6 = opt_entry(
        "rules"@,
        match cv.rules {
            Some(rs) => Some(JsonV::Arr(rs.map_values(|r: RuleV| canon_rule(r)))),
            None => None,
        },
    );
    let s7 = opt_entry(
        "notes"@,
        match cv.notes {
            Some(n) => Some(JsonV::Str(n)),
            None => None,
        },
    );
    let s8 = opt_entry(
        "changelog"@,
        match cv.changelog {
            Some(es) => Some(JsonV::Arr(es.map_values(|x: ChangelogEntryV| canon_entry(x)))),
            None => None,
        },
    );
    let req = canon_required(cv);
    let l1 = req + s1;
    let l2 = l1 + s2;
    let l3 = l2 + s3;
    let l4 = l3 + s4;
    let l5 = l4 + s5;
    let l6 = l5 + s6;
    let l7 = l6 + s7;
    let l8 = l7 + s8;
    let ce = canon_entries(cv);
    assert(canon_front(cv) == l4);
    assert(ce == l8 + cv.extra);
    assert(req[0].0 == "id"@ && req[0].1 == JsonV::Str(cv.id));
    crate::json::lemma_ov_find_witness(req, "id"@, 0);
    lemma_ov_find(req, "id"@);
    lemma_ov_get_concat(req, s1, "id"@);
    lemma_ov_get_concat(l1, s2, "id"@);
    lemma_ov_get_concat(l2, s3, "id"@);
    lemma_ov_get_concat(l3, s4, "id"@);
    lemma_ov_get_concat(l4, s5, "id"@);
    lemma_ov_get_concat(l5, s6, "id"@);
    lemma_ov_get_concat(l6, s7, "id"@);
    lemma_ov_get_concat(l7, s8, "id"@);
    lemma_ov_get_concat(l8, cv.extra, "id"@);
    assert(ov_get(ce, "id"@) == Some(JsonV::Str(cv.id)));
    assert(req[1].0 == "version"@ && req[1].1 == JsonV::Str(cv.version));
    crate::json::lemma_ov_find_witness(req, "version"@, 1);
    lemma_ov_find(req, "version"@);
    lemma_ov_get_concat(req, s1, "version"@);
    lemma_ov_get_concat(l1, s2, "version"@);
    lemma_ov_get_concat(l2, s3, "version"@);
    lemma_ov_get_concat(l3, s4, "version"@);
    lemma_ov_get_concat(l4, s5, "version"@);
    lemma_ov_get_concat(l5, s6, "version"@);
    lemma_ov_get_concat(l6, s7, "version"@);
    lemma_ov_get_concat(l7, s8, "version"@);
    lemma_ov_get_concat(l8, cv.extra, "version"@);
    assert(ov_get(ce, "version"@) == Some(JsonV::Str(cv.version)));
    assert(req[2].0 == "name"@ && req[2].1 == JsonV::Str(cv.name));
    crate::json::lemma_ov_find_witness(req, "name"@, 2);
    lemma_ov_find(req, "name"@);
    lemma_ov_get_concat(req, s1, "name"@);
    lemma_ov_get_concat(l1, s2, "name"@);
    lemma_ov_get_concat(l2, s3, "name"@);
    lemma_ov_get_concat(l3, s4, "name"@);
    lemma_ov_get_concat(l4, s5, "name"@);
    lemma_ov_get_concat(l5, s6, "name"@);
    lemma_ov_get_concat(l6, s7, "name"@);
    lemma_ov_get_concat(l7, s8, "name"@);
    lemma_ov_get_concat(l8, cv.extra, "name"@);
    assert(ov_get(ce, "name"@) == Some(JsonV::Str(cv.name)));
    assert(req[3].0 == "description"@ && req[3].1 == JsonV::Str(cv.description));
    crate::json::lemma_ov_find_witness(req, "description"@, 3);
    lemma_ov_find(req, "description"@);
    lemma_ov_get_concat(req, s1, "description"@);
    lemma_ov_get_concat(l1, s2, "description"@);
    lemma_ov_get_concat(l2, s3, "description"@);
    lemma_ov_get_concat(l3, s4, "description"@);
    lemma_ov_get_concat(l4, s5, "description"@);
    lemma_ov_get_concat(l5, s6, "description"@);
    lemma_ov_get_concat(l6, s7, "description"@);
    lemma_ov_get_concat(l7, s8, "description"@);
    lemma_ov_get_concat(l8, cv.extra, "description"@);
    assert(ov_get(ce, "description"@) == Some(JsonV::Str(cv.description)));
    assert(req[4].0 == "priority"@ && req[4].1 == JsonV::Str(priority_name(cv.priority)));
    crate::json::lemma_ov_find_witness(req, "priority"@, 4);
    lemma_ov_find(req, "priority"@);
    lemma_ov_get_concat(req, s1, "priority"@);
    lemma_ov_get_concat(l1, s2, "priority"@);
    lemma_ov_get_concat(l2, s3, "priority"@);
    lemma_ov_get_concat(l3, s4, "priority"@);
    lemma_ov_get_concat(l4, s5, "priority"@);
    lemma_ov_get_concat(l5, s6, "priority"@);
    lemma_ov_get_concat(l6, s7, "priority"@);
    lemma_ov_get_concat(l7, s8, "priority"@);
    lemma_ov_get_concat(l8, cv.extra, "priority"@);
    assert(ov_get(ce, "priority"@) == Some(JsonV::Str(priority_name(cv.priority))));
    assert(req[5].0 == "status"@ && req[5].1 == JsonV::Str(status_name(cv.status)));
    crate::json::lemma_ov_find_witness(req, "status"@, 5);
    lemma_ov_find(req, "status"@);
    lemma_ov_get_concat(req, s1, "status"@);
    lemma_ov_get_concat(l1, s2, "status"@);
    lemma_ov_get_concat(l2, s3, "status"@);
    lemma_ov_get_concat(l3, s4, "status"@);
    lemma_ov_get_concat(l4, s5, "status"@);
    lemma_ov_get_concat(l5, s6, "status"@);
    lemma_ov_get_concat(l6, s7, "status"@);
    lemma_ov_get_concat(l7, s8, "status"@);
    lemma_ov_get_concat(l8, cv.extra, "status"@);
    assert(ov_get(ce, "status"@) == Some(JsonV::Str(status_name(cv.status))));
}

/// What the domain, tags, applies_to, trigger fields of the canonical form look up to.
#[verifier::rlimit(100)]
proof fn lemma_canon_lookups_early(cv: ContractV)
    requires
        wf_contract(cv),
    ensures
        ov_get(canon_entries(cv), "domain"@) == match cv.domain {
            Some(d) => Some(JsonV::Str(d)),
            None => None,
        },
        ov_get(canon_entries(cv), "tags"@) == match cv.tags {
            Some(ts) => Some(canon_strs(ts)),
            None => None,
        },
        ov_get(canon_entries(cv), "applies_to"@) == match cv.applies_to {
            Some(a) => Some(canon_applies(a)),
            None => None,
        },
        ov_get(canon_entries(cv), "trigger"@) == match cv.trigger {
            Some(t) => Some(canon_trigger(t)),
            None => None,
        },
{
    lemma_field_names();
    reveal_strlit("description");
    reveal_strlit("changelog");
    assert("description"@[0] == 'd');
    assert("changelog"@[0] == 'c');
    let s1 = opt_entry(
        "domain"@,
        match cv.domain {
            Some(d) => Some(JsonV::Str(d)),
            None => None,
        },
    );
    let s2 = opt_entry(
        "tags"@,
        match cv.tags {
            Some(ts) => Some(canon_strs(ts)),
            None => None,
        },
    );
    let s3 = opt_entry(
        "applies_to"@,
        match cv.applies_to {
            Some(a) => Some(canon_applies(a)),
            None => None,
        },
    );
    let s4 = opt_entry(
        "trigger"@,
        match cv.trigger {
            Some(t) => Some(canon_trigger(t)),
            None => None,
        },
    );
    let s5 = opt_entry(
        "files"@,
        match cv.files {
            Some(fs) => Some(canon_strs(fs)),
            None => None,
        },
    );
    let s6 = opt_entry(
        "rules"@,
        match cv.rules {
            Some(rs) => Some(JsonV::Arr(rs.map_values(|r: RuleV| canon_rule(r)))),
            None => None,
        },
    );
    let s7 = opt_entry(
        "notes"@,
        match cv.notes {
            Some(n) => Some(JsonV::Str(n)),
            None => None,
        },
    );
    let s8 = opt_entry(
        "changelog"@,
        match cv.changelog {
            Some(es) => Some(JsonV::Arr(es.map_values(|x: ChangelogEntryV| canon_entry(x)))),
            None => None,
        },
    );
    let req = canon_required(cv);
    let l1 = req + s1;
    let l2 = l1 + s2;
    let l3 = l2 + s3;
    let l4 = l3 + s4;
    let l5 = l4 + s5;
    let l6 = l5 + s6;
    let l7 = l6 + s7;
    let l8 = l7 + s8;
    let ce = canon_entries(cv);
    assert(canon_front(cv) == l4);
    assert(ce == l8 + cv.extra);
    lemma_extra_absent(cv);
    // domain
    lemma_ov_get_absent(req, "domain"@);
    lemma_ov_get_concat(req, s1, "domain"@);
    match cv.domain {
        Some(d) => {
            assert(s1 =~= seq![("domain"@, JsonV::Str(d))]);
            crate::json::lemma_ov_find_witness(s1, "domain"@, 0);
            lemma_ov_find(s1, "domain"@);
            lemma_ov_get_concat(l1, s2, "domain"@);
            lemma_ov_get_concat(l2, s3, "domain"@);
            lemma_ov_get_concat(l3, s4, "domain"@);
            lemma_ov_get_concat(l4, s5, "domain"@);
            lemma_ov_get_concat(l5, s6, "domain"@);
            lemma_ov_get_concat(l6, s7, "domain"@);
            lemma_ov_get_concat(l7, s8, "domain"@);
            lemma_ov_get_concat(l8, cv.extra, "domain"@);
        },
        None => {
            lemma_ov_get_absent(s1, "domain"@);
            lemma_ov_get_absent(s2, "domain"@);
            lemma_ov_get_concat(l1, s2, "domain"@);
            lemma_ov_get_absent(s3, "domain"@);
            lemma_ov_get_concat(l2, s3, "domain"@);
            lemma_ov_get_absent(s4, "domain"@);
            lemma_ov_get_concat(l3, s4, "domain"@);
            lemma_ov_get_absent(s5, "domain"@);
            lemma_ov_get_concat(l4, s5, "domain"@);
            lemma_ov_get_absent(s6, "domain"@);
            lemma_ov_get_concat(l5, s6, "domain"@);
            lemma_ov_get_absent(s7, "domain"@);
            lemma_ov_get_concat(l6, s7, "domain"@);
            lemma_ov_get_absent(s8, "domain"@);
            lemma_ov_get_concat(l7, s8, "domain"@);
            lemma_ov_get_concat(l8, cv.extra, "domain"@);
        },
    }
    // tags
    lemma_ov_get_absent(req, "tags"@);
    lemma_ov_get_absent(s1, "tags"@);
    lemma_ov_get_concat(req, s1, "tags"@);
    lemma_ov_get_concat(l1, s2, "tags"@);
    match cv.tags {
        Some(ts) => {
            assert(s2 =~= seq![("tags"@, canon_strs(ts))]);
            crate::json::lemma_ov_find_witness(s2, "tags"@, 0);
            lemma_ov_find(s2, "tags"@);
            lemma_ov_get_concat(l2, s3, "tags"@);
            lemma_ov_get_concat(l3, s4, "tags"@);
            lemma_ov_get_concat(l4, s5, "tags"@);
            lemma_ov_get_concat(l5, s6, "tags"@);
            lemma_ov_get_concat(l6, s7, "tags"@);
            lemma_ov_get_concat(l7, s8, "tags"@);
            lemma_ov_get_concat(l8, cv.extra, "tags"@);
        },
        None => {
            lemma_ov_get_absent(s2, "tags"@);
            lemma_ov_get_absent(s3, "tags"@);
            lemma_ov_get_concat(l2, s3, "tags"@);
            lemma_ov_get_absent(s4, "tags"@);
            lemma_ov_get_concat(l3, s4, "tags"@);
            lemma_ov_get_absent(s5, "tags"@);
            lemma_ov_get_concat(l4, s5, "tags"@);
            lemma_ov_get_absent(s6, "tags"@);
            lemma_ov_get_concat(l5, s6, "tags"@);
            lemma_ov_get_absent(s7, "tags"@);
            lemma_ov_get_concat(l6, s7, "tags"@);
            lemma_ov_get_absent(s8, "tags"@);
            lemma_ov_get_concat(l7, s8, "tags"@);
            lemma_ov_get_concat(l8, cv.extra, "tags"@);
        },
    }
    // applies_to
    lemma_ov_get_absent(req, "applies_to"@);
    lemma_ov_get_absent(s1, "applies_to"@);
    lemma_ov_get_concat(req, s1, "applies_to"@);
    lemma_ov_get_absent(s2, "applies_to"@);
    lemma_ov_get_concat(l1, s2, "applies_to"@);
    lemma_ov_get_concat(l2, s3, "applies_to"@);
    match cv.applies_to {
        Some(a) => {
            assert(s3 =~= seq![("applies_to"@, canon_applies(a))]);
            crate::json::lemma_ov_find_witness(s3, "applies_to"@, 0);
            lemma_ov_find(s3, "applies_to"@);
            lemma_ov_get_concat(l3, s4, "applies_to"@);
            lemma_ov_get_concat(l4, s5, "applies_to"@);
            lemma_ov_get_concat(l5, s6, "applies_to"@);
            lemma_ov_get_concat(l6, s7, "applies_to"@);
            lemma_ov_get_concat(l7, s8, "applies_to"@);
            lemma_ov_get_concat(l8, cv.extra, "applies_to"@);
        },
        None => {
            lemma_ov_get_absent(s3, "applies_to"@);
            lemma_ov_get_absent(s4, "applies_to"@);
            lemma_ov_get_concat(l3, s4, "applies_to"@);
            lemma_ov_get_absent(s5, "applies_to"@);
            lemma_ov_get_concat(l4, s5, "applies_to"@);
            lemma_ov_get_absent(s6, "applies_to"@);
            lemma_ov_get_concat(l5, s6, "applies_to"@);
            lemma_ov_get_absent(s7, "applies_to"@);
            lemma_ov_get_concat(l6, s7, "applies_to"@);
            lemma_ov_get_absent(s8, "applies_to"@);
            lemma_ov_get_concat(l7, s8, "applies_to"@);
            lemma_ov_get_concat(l8, cv.extra, "applies_to"@);
        },
    }
    // trigger
    lemma_ov_get_absent(req, "trigger"@);
    lemma_ov_get_absent(s1, "trigger"@);
    lemma_ov_get_concat(req, s1, "trigger"@);
    lemma_ov_get_absent(s2, "trigger"@);
    lemma_ov_get_concat(l1, s2, "trigger"@);
    lemma_ov_get_absent(s3, "trigger"@);
    lemma_ov_get_concat(l2, s3, "trigger"@);
    lemma_ov_get_concat(l3, s4, "trigger"@);
    match cv.trigger {
        Some(t) => {
            assert(s4 =~= seq![("trigger"@, canon_trigger(t))]);
            crate::json::lemma_ov_find_witness(s4, "trigger"@, 0);
            lemma_ov_find(s4, "trigger"@);
            lemma_ov_get_concat(l4, s5, "trigger"@);
            lemma_ov_get_concat(l5, s6, "trigger"@);
            lemma_ov_get_concat(l6, s7, "trigger"@);
            lemma_ov_get_concat(l7, s8, "trigger"@);
            lemma_ov_get_concat(l8, cv.extra, "trigger"@);
        },
        None => {
            lemma_ov_get_absent(s4, "trigger"@);
            lemma_ov_get_absent(s5, "trigger"@);
            lemma_ov_get_concat(l4, s5, "trigger"@);
            lemma_ov_get_absent(s6, "trigger"@);
            lemma_ov_get_concat(l5, s6, "trigger"@);
            lemma_ov_get_absent(s7, "trigger"@);
            lemma_ov_get_concat(l6, s7, "trigger"@);
            lemma_ov_get_absent(s8, "trigger"@);
            lemma_ov_get_concat(l7, s8, "trigger"@);
            lemma_ov_get_concat(l8, cv.extra, "trigger"@);
        },
    }
}

/// What the files, rules, notes, changelog fields of the canonical form look up to.
#[verifier::rlimit(100)]
proof fn lemma_canon_lookups_late(cv: ContractV)
    requires
        wf_contract(cv),
    ensures
        ov_get(canon_entries(cv), "files"@) == match cv.files {
            Some(fs) => Some(canon_strs(fs)),
            None => None,
        },
        ov_get(canon_entries(cv), "rules"@) == match cv.rules {
            Some(rs) => Some(JsonV::Arr(rs.map_values(|r: RuleV| canon_rule(r)))),
            None => None,
        },
        ov_get(canon_entries(cv), "notes"@) == match cv.notes {
            Some(n) => Some(JsonV::Str(n)),
            None => None,
        },
        ov_get(canon_entries(cv), "changelog"@) == match cv.changelog {
            Some(es) => Some(JsonV::Arr(es.map_values(|x: ChangelogEntryV| canon_entry(x)))),
            None => None,
        },
{
    lemma_field_names();
    reveal_strlit("description");
    reveal_strlit("changelog");
    assert("description"@[0] == 'd');
    assert("changelog"@[0] == 'c');
    let s1 = opt_entry(
        "domain"@,
        match cv.domain {
            Some(d) => Some(JsonV::Str(d)),
            None => None,
        },
    );
    let s2 = opt_entry(
        "tags"@,
        match cv.tags {
            Some(ts) => Some(canon_strs(ts)),
            None => None,
        },
    );
    let s3 = opt_entry(
        "applies_to"@,
        match cv.applies_to {
            Some(a) => Some(canon_applies(a)),
            None => None,
        },
    );
    let s4 = opt_entry(
        "trigger"@,
        match cv.trigger {
            Some(t) => Some(canon_trigger(t)),
            None => None,
        },
    );
    let s5 = opt_entry(
        "files"@,
        match cv.files {
            Some(fs) => Some(canon_strs(fs)),
            None => None,
        },
    );
    let s6 = opt_entry(
        "rules"@,
        match cv.rules {
            Some(rs) => Some(JsonV::Arr(rs.map_values(|r: RuleV| canon_rule(r)))),
            None => None,
        },
    );
    let s7 = opt_entry(
        "notes"@,
        match cv.notes {
            Some(n) => Some(JsonV::Str(n)),
            None => None,
        },
    );
    let s8 = opt_entry(
        "changelog"@,
        match cv.changelog {
            Some(es) => Some(JsonV::Arr(es.map_values(|x: ChangelogEntryV| canon_entry(x)))),
            None => None,
        },
    );
    let req = canon_required(cv);
    let l1 = req + s1;
    let l2 = l1 + s2;
    let l3 = l2 + s3;
    let l4 = l3 + s4;
    let l5 = l4 + s5;
    let l6 = l5 + s6;
    let l7 = l6 + s7;
    let l8 = l7 + s8;
    let ce = canon_entries(cv);
    assert(canon_front(cv) == l4);
    assert(ce == l8 + cv.extra);
    lemma_extra_absent(cv);
    // files
    lemma_ov_get_absent(req, "files"@);
    lemma_ov_get_absent(s1, "files"@);
    lemma_ov_get_concat(req, s1, "files"@);
    lemma_ov_get_absent(s2, "files"@);
    lemma_ov_get_concat(l1, s2, "files"@);
    lemma_ov_get_absent(s3, "files"@);
    lemma_ov_get_concat(l2, s3, "files"@);
    lemma_ov_get_absent(s4, "files"@);
    lemma_ov_get_concat(l3, s4, "files"@);
    lemma_ov_get_concat(l4, s5, "files"@);
    match cv.files {
        Some(fs) => {
            assert(s5 =~= seq![("files"@, canon_strs(fs))]);
            crate::json::lemma_ov_find_witness(s5, "files"@, 0);
            lemma_ov_find(s5, "files"@);
            lemma_ov_get_concat(l5, s6, "files"@);
            lemma_ov_get_concat(l6, s7, "files"@);
            lemma_ov_get_concat(l7, s8, "files"@);
            lemma_ov_get_concat(l8, cv.extra, "files"@);
        },
        None => {
            lemma_ov_get_absent(s5, "files"@);
            lemma_ov_get_absent(s6, "files"@);
            lemma_ov_get_concat(l5, s6, "files"@);
            lemma_ov_get_absent(s7, "files"@);
            lemma_ov_get_concat(l6, s7, "files"@);
            lemma_ov_get_absent(s8, "files"@);
            lemma_ov_get_concat(l7, s8, "files"@);
            lemma_ov_get_concat(l8, cv.extra, "files"@);
        },
    }
    // rules
    lemma_ov_get_absent(req, "rules"@);
    lemma_ov_get_absent(s1, "rules"@);
    lemma_ov_get_concat(req, s1, "rules"@);
    lemma_ov_get_absent(s2, "rules"@);
    lemma_ov_get_concat(l1, s2, "rules"@);
    lemma_ov_get_absent(s3, "rules"@);
    lemma_ov_get_concat(l2, s3, "rules"@);
    lemma_ov_get_absent(s4, "rules"@);
    lemma_ov_get_concat(l3, s4, "rules"@);
    lemma_ov_get_absent(s5, "rules"@);
    lemma_ov_get_concat(l4, s5, "rules"@);
    lemma_ov_get_concat(l5, s6, "rules"@);
    match cv.rules {
        Some(rs) => {
            assert(s6 =~= seq![("rules"@, JsonV::Arr(rs.map_values(|r: RuleV| canon_rule(r))))]);
            crate::json::lemma_ov_find_witness(s6, "rules"@, 0);
            lemma_ov_find(s6, "rules"@);
            lemma_ov_get_concat(l6, s7, "rules"@);
            lemma_ov_get_concat(l7, s8, "rules"@);
            lemma_ov_get_concat(l8, cv.extra, "rules"@);
        },
        None => {
            lemma_ov_get_absent(s6, "rules"@);
            lemma_ov_get_absent(s7, "rules"@);
            lemma_ov_get_concat(l6, s7, "rules"@);
            lemma_ov_get_absent(s8, "rules"@);
            lemma_ov_get_concat(l7, s8, "rules"@);
            lemma_ov_get_concat(l8, cv.extra, "rules"@);
        },
    }
    // notes
    lemma_ov_get_absent(req, "notes"@);
    lemma_ov_get_absent(s1, "notes"@);
    lemma_ov_get_concat(req, s1, "notes"@);
    lemma_ov_get_absent(s2, "notes"@);
    lemma_ov_get_concat(l1, s2, "notes"@);
    lemma_ov_get_absent(s3, "notes"@);
    lemma_ov_get_concat(l2, s3, "notes"@);
    lemma_ov_get_absent(s4, "notes"@);
    lemma_ov_get_concat(l3, s4, "notes"@);
    lemma_ov_get_absent(s5, "notes"@);
    lemma_ov_get_concat(l4, s5, "notes"@);
    lemma_ov_get_absent(s6, "notes"@);
    lemma_ov_get_concat(l5, s6, "notes"@);
    lemma_ov_get_concat(l6, s7, "notes"@);
    match cv.notes {
        Some(n) => {
            assert(s7 =~= seq![("notes"@, JsonV::Str(n))]);
            crate::json::lemma_ov_find_witness(s7, "notes"@, 0);
            lemma_ov_find(s7, "notes"@);
            lemma_ov_get_concat(l7, s8, "notes"@);
            lemma_ov_get_concat(l8, cv.extra, "notes"@);
        },
        None => {
            lemma_ov_get_absent(s7, "notes"@);
            lemma_ov_get_absent(s8, "notes"@);
            lemma_ov_get_concat(l7, s8, "notes"@);
            lemma_ov_get_concat(l8, cv.extra, "notes"@);
        },
    }
    // changelog
    lemma_ov_get_absent(req, "changelog"@);
    lemma_ov_get_absent(s1, "changelog"@);
    lemma_ov_get_concat(req, s1, "changelog"@);
    lemma_ov_get_absent(s2, "changelog"@);
    lemma_ov_get_concat(l1, s2, "changelog"@);
    lemma_ov_get_absent(s3, "changelog"@);
    lemma_ov_get_concat(l2, s3, "changelog"@);
    lemma_ov_get_absent(s4, "changelog"@);
    lemma_ov_get_concat(l3, s4, "changelog"@);
    lemma_ov_get_absent(s5, "changelog"@);
    lemma_ov_get_concat(l4, s5, "changelog"@);
    lemma_ov_get_absent(s6, "changelog"@);
    lemma_ov_get_concat(l5, s6, "changelog"@);
    lemma_ov_get_absent(s7, "changelog"@);
    lemma_ov_get_concat(l6, s7, "changelog"@);
    lemma_ov_get_concat(l7, s8, "changelog"@);
    match cv.changelog {
        Some(es) => {
            assert(s8 =~= seq![("changelog"@, JsonV::Arr(es.map_values(|x: ChangelogEntryV| canon_entry(x))))]);
            crate::json::lemma_ov_find_witness(s8, "changelog"@, 0);
            lemma_ov_find(s8, "changelog"@);
            lemma_ov_get_concat(l8, cv.extra, "changelog"@);
        },
        None => {
            lemma_ov_get_absent(s8, "changelog"@);
            lemma_ov_get_concat(l8, cv.extra, "changelog"@);
        },
    }
}

/// What every declared field of the canonical form looks up to: the
/// declared segments come in declaration order, before the extra bag, and
/// a well-formed extra bag never shadows an absent field.
proof fn lemma_canon_lookups(cv: ContractV)
    requires
        wf_contract(cv),
    ensures
        ov_get(canon_entries(cv), "id"@) == Some(JsonV::Str(cv.id)),
        ov_get(canon_entries(cv), "version"@) == Some(JsonV::Str(cv.version)),
        ov_get(canon_entries(cv), "name"@) == Some(JsonV::Str(cv.name)),
        ov_get(canon_entries(cv), "description"@) == Some(JsonV::Str(cv.description)),
        ov_get(canon_entries(cv), "priority"@) == Some(JsonV::Str(priority_name(cv.priority))),
        ov_get(canon_entries(cv), "status"@) == Some(JsonV::Str(status_name(cv.status))),
        ov_get(canon_entries(cv), "domain"@) == match cv.domain {
            Some(d) => Some(JsonV::Str(d)),
            None => None,
        },
        ov_get(canon_entries(cv), "tags"@) == match cv.tags {
            Some(ts) => Some(canon_strs(ts)),
            None => None,
        },
        ov_get(canon_entries(cv), "applies_to"@) == match cv.applies_to {
            Some(a) => Some(canon_applies(a)),
            None => None,
        },
        ov_get(canon_entries(cv), "trigger"@) == match cv.trigger {
            Some(t) => Some(canon_trigger(t)),
            None => None,
        },
        ov_get(canon_entries(cv), "files"@) == match cv.files {
            Some(fs) => Some(canon_strs(fs)),
            None => None,
        },
        ov_get(canon_entries(cv), "rules"@) == match cv.rules {
            Some(rs) => Some(JsonV::Arr(rs.map_values(|r: RuleV| canon_rule(r)))),
            None => None,
        },
        ov_get(canon_entries(cv), "notes"@) == match cv.notes {
            Some(n) => Some(JsonV::Str(n)),
            None => None,
        },
        ov_get(canon_entries(cv), "changelog"@) == match cv.changelog {
            Some(es) => Some(JsonV::Arr(es.map_values(|x: ChangelogEntryV| canon_entry(x)))),
            None => None,
        },
{
    lemma_canon_lookups_required(cv);
    lemma_canon_lookups_early(cv);
    lemma_canon_lookups_late(cv);
}

/// An entry list of interpreted keys only contributes nothing to the bag.
proof fn lemma_extra_of_empty(e: Seq<(Seq<char>, JsonV)>)
    requires
        forall|i: int| 0 <= i < e.len() ==> known_key((#[trigger] e[i]).0),
    ensures
        extra_of(e) == Seq::<(Seq<char>, JsonV)>::empty(),
    decreases e,
{
    if e.len() > 0 {
        lemma_extra_of_empty(e.drop_last());
        assert(extra_of(e) =~= Seq::<(Seq<char>, JsonV)>::empty());
    }
}

/// The extra bag of the canonical form is exactly the model's extra bag.
#[verifier::rlimit(50)]
proof fn lemma_canon_extra(cv: ContractV)
    requires
        wf_contract(cv),
    ensures
        extra_of(canon_entries(cv)) == cv.extra,
{
    lemma_field_names();
    let req = canon_required(cv);
    let ce = canon_entries(cv);
    let front = canon_front(cv);
    let l5 = front + opt_entry(
        "files"@,
        match cv.files {
            Some(fs) => Some(canon_strs(fs)),
            None => None,
        },
    );
    let l6 = l5 + opt_entry(
        "rules"@,
        match cv.rules {
            Some(rs) => Some(JsonV::Arr(rs.map_values(|r: RuleV| canon_rule(r)))),
            None => None,
        },
    );
    let l7 = l6 + opt_entry(
        "notes"@,
        match cv.notes {
            Some(n) => Some(JsonV::Str(n)),
            None => None,
        },
    );
    let l8 = l7 + opt_entry(
        "changelog"@,
        match cv.changelog {
            Some(es) => Some(JsonV::Arr(es.map_values(|x: ChangelogEntryV| canon_entry(x)))),
            None => None,
        },
    );
    assert(ce == l8 + cv.extra);
    assert forall|i: int| 0 <= i < l8.len() implies known_key((#[trigger] l8[i]).0) by {}
    lemma_extra_of_empty(l8);
    lemma_extra_of_concat(l8, cv.extra);
    lemma_extra_of_identity(cv.extra);
    assert(extra_of(ce) =~= cv.extra);
}

/// The round trip: the canonical form of a well-formed contract model is a
/// well-shaped structural value, and reading it back yields the very same
/// model. Unknown extra fields survive the trip untouched.
#[verifier::rlimit(100)]
pub proof fn lemma_canonical_roundtrip(cv: ContractV)
    requires
        wf_contract(cv),
    ensures
        schema_ok(canon_json(cv)),
        contract_of(canon_json(cv)) == cv,
{
    lemma_canon_lookups(cv);
    lemma_keyword_distinct();
    lemma_field_names();
    lemma_canon_extra(cv);
    let ce = canon_entries(cv);
    assert(canon_json(cv)->Obj_0 == ce);
    match cv.tags {
        Some(ts) => {
            lemma_strs_roundtrip(ts);
        },
        None => {},
    }
    match cv.files {
        Some(fs) => {
            lemma_strs_roundtrip(fs);
        },
        None => {},
    }
    match cv.applies_to {
        Some(AppliesToV::Single(_)) => {},
        Some(AppliesToV::Multiple(v)) => {
            lemma_strs_roundtrip(v);
        },
        None => {},
    }
    match cv.trigger {
        Some(t) => {
            let te = canon_trigger(t)->Obj_0;
            match t.kind {
                Some(k) => {
                    let head: Seq<(Seq<char>, JsonV)> = seq![("type"@, JsonV::Str(k))];
                    assert(te =~= head + t.extra);
                    crate::json::lemma_ov_find_witness(head, "type"@, 0);
                    lemma_ov_find(head, "type"@);
                    lemma_ov_get_concat(head, t.extra, "type"@);
                    assert(ov_get(te, "type"@) == Some(JsonV::Str(k)));
                    assert(trig_extra(head) =~= Seq::<(Seq<char>, JsonV)>::empty()) by {
                        assert(head.drop_last() =~= Seq::<(Seq<char>, JsonV)>::empty());
                        assert(trig_extra(Seq::<(Seq<char>, JsonV)>::empty())
                            =~= Seq::<(Seq<char>, JsonV)>::empty());
                    }
                    lemma_trig_extra_concat(head, t.extra);
                    lemma_trig_extra_identity(t.extra);
                    assert(trig_extra(te) =~= t.extra);
                },
                None => {
                    assert(te =~= t.extra);
                    lemma_ov_get_absent(te, "type"@);
                    lemma_trig_extra_identity(t.extra);
                },
            }
            assert(trigger_of(ce) =~~= Some(t));
        },
        None => {},
    }
    match cv.rules {
        Some(rs) => {
            let items = rs.map_values(|r: RuleV| canon_rule(r));
            assert forall|i: int| 0 <= i < items.len() implies rule_ok(#[trigger] items[i])
                && rule_of(items[i]) == rs[i] by {
                lemma_rule_roundtrip(rs[i]);
            }
            assert(items.map_values(|v: JsonV| rule_of(v)) =~= rs);
        },
        None => {},
    }
    match cv.changelog {
        Some(es) => {
            let items = es.map_values(|x: ChangelogEntryV| canon_entry(x));
            assert forall|i: int| 0 <= i < items.len() implies entry_ok(#[trigger] items[i])
                && entry_of(items[i]) == es[i] by {
                lemma_entry_roundtrip(es[i]);
            }
            assert(items.map_values(|v: JsonV| entry_of(v)) =~= es);
        },
        None => {},
    }
    assert(contract_of(canon_json(cv)) =~~= cv);
}

/// Checks that the field is present and holds a string.
fn check_req_str(entries: &Vec<(String, Json)>, key: &str) -> (r: bool)
    ensures
        r == req_str_ok(jv_entries(entries@), key@),
{
    match field_of(entries, key) {
        Some(Json::Str(_)) => true,
        Some(x) => {
            proof {
                lemma_jv_variant(*x);
            }
            false
        },
        None => false,
    }
}

/// Checks that the field is absent or holds a string.
fn check_opt_str(entries: &Vec<(String, Json)>, key: &str) -> (r: bool)
    ensures
        r == opt_str_ok(jv_entries(entries@), key@),
{
    match field_of(entries, key) {
        None => true,
        Some(Json::Str(_)) => true,
        Some(x) => {
            proof {
                lemma_jv_variant(*x);
            }
            false
        },
    }
}

/// Checks that the field is absent or holds an array of strings.
fn check_opt_arr_strs(entries: &Vec<(String, Json)>, key: &str) -> (r: bool)
    ensures
        r == opt_arr_strs_ok(jv_entries(entries@), key@),
{
    match field_of(entries, key) {
        None => true,
        Some(Json::Arr(items)) => match conv_strs(items) {
            Some(_) => true,
            None => false,
        },
        Some(x) => {
            proof {
                lemma_jv_variant(*x);
            }
            false
        },
    }
}

/// Checks the applies-to shape: absent, one pattern, or an array of them.
fn check_applies(entries: &Vec<(String, Json)>) -> (r: bool)
    ensures
        r == applies_ok(jv_entries(entries@)),
{
    match field_of(entries, "applies_to") {
        None => true,
        Some(Json::Str(_)) => true,
        Some(Json::Arr(items)) => match conv_strs(items) {
            Some(_) => true,
            None => false,
        },
        Some(x) => {
            proof {
                lemma_jv_variant(*x);
            }
            false
        },
    }
}

/// Checks the trigger shape: absent or a table with an optional string kind.
fn check_trigger(entries: &Vec<(String, Json)>) -> (r: bool)
    ensures
        r == trigger_ok(jv_entries(entries@)),
{
    match field_of(entries, "trigger") {
        None => true,
        Some(x) => {
            proof {
                lemma_jv_variant(*x);
            }
            match conv_trigger(x) {
                Some(_) => true,
                None => false,
            }
        },
    }
}

/// Checks the rules shape: absent or an array of well-shaped rule tables.
fn check_rules(entries: &Vec<(String, Json)>) -> (r: bool)
    ensures
        r == rules_ok(jv_entries(entries@)),
{
    match field_of(entries, "rules") {
        None => true,
        Some(x) => {
            proof {
                lemma_jv_variant(*x);
            }
            match x {
                Json::Arr(items) => {
                    proof {
                        assert(jv(*x) == JsonV::Arr(jv_list(items@)));
                        lemma_jv_list_index(items@);
                    }
                    match conv_rules(items) {
                        Some(_) => {
                            proof {
                                assert(rules_ok(jv_entries(entries@)));
                            }
                            true
                        },
                        None => {
                            proof {
                                assert(!rules_ok(jv_entries(entries@)));
                            }
                            false
                        },
                    }
                },
                _ => false,
            }
        },
    }
}

/// Checks the changelog shape: absent or an array of well-shaped entries.
fn check_changelog(entries: &Vec<(String, Json)>) -> (r: bool)
    ensures
        r == changelog_ok(jv_entries(entries@)),
{
    match field_of(entries, "changelog") {
        None => true,
        Some(x) => {
            proof {
                lemma_jv_variant(*x);
            }
            match x {
                Json::Arr(items) => {
                    proof {
                        assert(jv(*x) == JsonV::Arr(jv_list(items@)));
                        lemma_jv_list_index(items@);
                    }
                    match conv_entries(items) {
                        Some(_) => {
                            proof {
                                assert(changelog_ok(jv_entries(entries@)));
                            }
                            true
                        },
                        None => {
                            proof {
                                assert(!changelog_ok(jv_entries(entries@)));
                            }
                            false
                        },
                    }
                },
                _ => false,
            }
        },
    }
}

/// Collects the violations of the first seven checks, in field order.
#[verifier::rlimit(100)]
fn shape_errors_front(entries: &Vec<(String, Json)>) -> (r: Vec<String>)
    ensures
        strs_view(r@) == ({
            let e = jv_entries(entries@);
            fault(req_str_ok(e, "id"@), "contract requires a string 'id'"@) + fault(req_str_ok(e, "version"@), "contract requires a string 'version'"@) + fault(req_str_ok(e, "name"@), "contract requires a string 'name'"@) + fault(req_str_ok(e, "description"@), "contract requires a string 'description'"@) + fault(priority_ok(e), "'priority' must be one of 'must', 'should', 'prefer'"@) + fault(status_ok(e), "'status' must be one of 'active', 'draft', 'deprecated'"@) + fault(opt_str_ok(e, "domain"@), "'domain' must be a string"@)
        }),
{
    let ghost e = jv_entries(entries@);
    let mut out: Vec<String> = Vec::new();
    let ghost g0 = Seq::<Seq<char>>::empty();
    proof {
        assert(strs_view(out@) =~= g0);
    }
    let ghost before = strs_view(out@);
    if !check_req_str(entries, "id") {
        let ghost prevvec = out@;
        out.push(String::from_str("contract requires a string 'id'"));
        proof {
            lemma_strs_view_push(prevvec, out@.last());
            assert(strs_view(out@) =~= before + fault(req_str_ok(e, "id"@), "contract requires a string 'id'"@));
        }
    } else {
        proof {
            assert(strs_view(out@) =~= before + fault(req_str_ok(e, "id"@), "contract requires a string 'id'"@));
        }
    }
    let ghost g1 = g0 + fault(req_str_ok(e, "id"@), "contract requires a string 'id'"@);
    proof {
        assert(strs_view(out@) == g1);
    }
    let ghost before = strs_view(out@);
    if !check_req_str(entries, "version") {
        let ghost prevvec = out@;
        out.push(String::from_str("contract requires a string 'version'"));
        proof {
            lemma_strs_view_push(prevvec, out@.last());
            assert(strs_view(out@) =~= before + fault(req_str_ok(e, "version"@), "contract requires a string 'version'"@));
        }
    } else {
        proof {
            assert(strs_view(out@) =~= before + fault(req_str_ok(e, "version"@), "contract requires a string 'version'"@));
        }
    }
    let ghost g2 = g1 + fault(req_str_ok(e, "version"@), "contract requires a string 'version'"@);
    proof {
        assert(strs_view(out@) == g2);
    }
    let ghost before = strs_view(out@);
    if !check_req_str(entries, "name") {
        let ghost prevvec = out@;
        out.push(String::from_str("contract requires a string 'name'"));
        proof {
            lemma_strs_view_push(prevvec, out@.last());
            assert(strs_view(out@) =~= before + fault(req_str_ok(e, "name"@), "contract requires a string 'name'"@));
        }
    } else {
        proof {
            assert(strs_view(out@) =~= before + fault(req_str_ok(e, "name"@), "contract requires a string 'name'"@));
        }
    }
    let ghost g3 = g2 + fault(req_str_ok(e, "name"@), "contract requires a string 'name'"@);
    proof {
        assert(strs_view(out@) == g3);
    }
    let ghost before = strs_view(out@);
    if !check_req_str(entries, "description") {
        let ghost prevvec = out@;
        out.push(String::from_str("contract requires a string 'description'"));
        proof {
            lemma_strs_view_push(prevvec, out@.last());
            assert(strs_view(out@) =~= before + fault(req_str_ok(e, "description"@), "contract requires a string 'description'"@));
        }
    } else {
        proof {
            assert(strs_view(out@) =~= before + fault(req_str_ok(e, "description"@), "contract requires a string 'description'"@));
        }
    }
    let ghost g4 = g3 + fault(req_str_ok(e, "description"@), "contract requires a string 'description'"@);
    proof {
        assert(strs_view(out@) == g4);
    }
    let ghost before = strs_view(out@);
    if !conv_priority(entries).is_some() {
        let ghost prevvec = out@;
        out.push(String::from_str("'priority' must be one of 'must', 'should', 'prefer'"));
        proof {
            lemma_strs_view_push(prevvec, out@.last());
            assert(strs_view(out@) =~= before + fault(priority_ok(e), "'priority' must be one of 'must', 'should', 'prefer'"@));
        }
    } else {
        proof {
            assert(strs_view(out@) =~= before + fault(priority_ok(e), "'priority' must be one of 'must', 'should', 'prefer'"@));
        }
    }
    let ghost g5 = g4 + fault(priority_ok(e), "'priority' must be one of 'must', 'should', 'prefer'"@);
    proof {
        assert(strs_view(out@) == g5);
    }
    let ghost before = strs_view(out@);
    if !conv_status(entries).is_some() {
        let ghost prevvec = out@;
        out.push(String::from_str("'status' must be one of 'active', 'draft', 'deprecated'"));
        proof {
            lemma_strs_view_push(prevvec, out@.last());
            assert(strs_view(out@) =~= before + fault(status_ok(e), "'status' must be one of 'active', 'draft', 'deprecated'"@));
        }
    } else {
        proof {
            assert(strs_view(out@) =~= before + fault(status_ok(e), "'status' must be one of 'active', 'draft', 'deprecated'"@));
        }
    }
    let ghost g6 = g5 + fault(status_ok(e), "'status' must be one of 'active', 'draft', 'deprecated'"@);
    proof {
        assert(strs_view(out@) == g6);
    }
    let ghost before = strs_view(out@);
    if !check_opt_str(entries, "domain") {
        let ghost prevvec = out@;
        out.push(String::from_str("'domain' must be a string"));
        proof {
            lemma_strs_view_push(prevvec, out@.last());
            assert(strs_view(out@) =~= before + fault(opt_str_ok(e, "domain"@), "'domain' must be a string"@));
        }
    } else {
        proof {
            assert(strs_view(out@) =~= before + fault(opt_str_ok(e, "domain"@), "'domain' must be a string"@));
        }
    }
    let ghost g7 = g6 + fault(opt_str_ok(e, "domain"@), "'domain' must be a string"@);
    proof {
        assert(strs_view(out@) == g7);
    }
    proof {
        assert(strs_view(out@) == ({
            let e = jv_entries(entries@);
            fault(req_str_ok(e, "id"@), "contract requires a string 'id'"@) + fault(req_str_ok(e, "version"@), "contract requires a string 'version'"@) + fault(req_str_ok(e, "name"@), "contract requires a string 'name'"@) + fault(req_str_ok(e, "description"@), "contract requires a string 'description'"@) + fault(priority_ok(e), "'priority' must be one of 'must', 'should', 'prefer'"@) + fault(status_ok(e), "'status' must be one of 'active', 'draft', 'deprecated'"@) + fault(opt_str_ok(e, "domain"@), "'domain' must be a string"@)
        })) by {
            assert(g0 + fault(req_str_ok(e, "id"@), "contract requires a string 'id'"@) =~= fault(req_str_ok(e, "id"@), "contract requires a string 'id'"@));
        }
    }
    out
}

/// Continues the collection with the next four checks.
#[verifier::rlimit(100)]
#[verifier::spinoff_prover]
fn shape_errors_mid(entries: &Vec<(String, Json)>, front: Vec<String>) -> (r: Vec<String>)
    requires
        strs_view(front@) == ({
            let e = jv_entries(entries@);
            fault(req_str_ok(e, "id"@), "contract requires a string 'id'"@) + fault(req_str_ok(e, "version"@), "contract requires a string 'version'"@) + fault(req_str_ok(e, "name"@), "contract requires a string 'name'"@) + fault(req_str_ok(e, "description"@), "contract requires a string 'description'"@) + fault(priority_ok(e), "'priority' must be one of 'must', 'should', 'prefer'"@) + fault(status_ok(e), "'status' must be one of 'active', 'draft', 'deprecated'"@) + fault(opt_str_ok(e, "domain"@), "'domain' must be a string"@)
        }),
    ensures
        strs_view(r@) == ({
            let e = jv_entries(entries@);
            fault(req_str_ok(e, "id"@), "contract requires a string 'id'"@) + fault(req_str_ok(e, "version"@), "contract requires a string 'version'"@) + fault(req_str_ok(e, "name"@), "contract requires a string 'name'"@) + fault(req_str_ok(e, "description"@), "contract requires a string 'description'"@) + fault(priority_ok(e), "'priority' must be one of 'must', 'should', 'prefer'"@) + fault(status_ok(e), "'status' must be one of 'active', 'draft', 'deprecated'"@) + fault(opt_str_ok(e, "domain"@), "'domain' must be a string"@) + fault(opt_arr_strs_ok(e, "tags"@), "'tags' must be an array of strings"@) + fault(applies_ok(e), "'applies_to' must be a string or an array of strings"@) + fault(trigger_ok(e), "'trigger' must be a table with an optional string 'type'"@) + fault(opt_arr_strs_ok(e, "files"@), "'files' must be an array of strings"@)
        }),
{
    let ghost e = jv_entries(entries@);
    let mut out = front;
    let ghost g7 = strs_view(out@);
    let ghost before = strs_view(out@);
    if !check_opt_arr_strs(entries, "tags") {
        let ghost prevvec = out@;
        out.push(String::from_str("'tags' must be an array of strings"));
        proof {
            lemma_strs_view_push(prevvec, out@.last());
            assert(strs_view(out@) =~= before + fault(opt_arr_strs_ok(e, "tags"@), "'tags' must be an array of strings"@));
        }
    } else {
        proof {
            assert(strs_view(out@) =~= before + fault(opt_arr_strs_ok(e, "tags"@), "'tags' must be an array of strings"@));
        }
    }
    let ghost g8 = g7 + fault(opt_arr_strs_ok(e, "tags"@), "'tags' must be an array of strings"@);
    proof {
        assert(strs_view(out@) == g8);
    }
    let ghost before = strs_view(out@);
    if !check_applies(entries) {
        let ghost prevvec = out@;
        out.push(String::from_str("'applies_to' must be a string or an array of strings"));
        proof {
            lemma_strs_view_push(prevvec, out@.last());
            assert(strs_view(out@) =~= before + fault(applies_ok(e), "'applies_to' must be a string or an array of strings"@));
        }
    } else {
        proof {
            assert(strs_view(out@) =~= before + fault(applies_ok(e), "'applies_to' must be a string or an array of strings"@));
        }
    }
    let ghost g9 = g8 + fault(applies_ok(e), "'applies_to' must be a string or an array of strings"@);
    proof {
        assert(strs_view(out@) == g9);
    }
    let ghost before = strs_view(out@);
    if !check_trigger(entries) {
        let ghost prevvec = out@;
        out.push(String::from_str("'trigger' must be a table with an optional string 'type'"));
        proof {
            lemma_strs_view_push(prevvec, out@.last());
            assert(strs_view(out@) =~= before + fault(trigger_ok(e), "'trigger' must be a table with an optional string 'type'"@));
        }
    } else {
        proof {
            assert(strs_view(out@) =~= before + fault(trigger_ok(e), "'trigger' must be a table with an optional string 'type'"@));
        }
    }
    let ghost g10 = g9 + fault(trigger_ok(e), "'trigger' must be a table with an optional string 'type'"@);
    proof {
        assert(strs_view(out@) == g10);
    }
    let ghost before = strs_view(out@);
    if !check_opt_arr_strs(entries, "files") {
        let ghost prevvec = out@;
        out.push(String::from_str("'files' must be an array of strings"));
        proof {
            lemma_strs_view_push(prevvec, out@.last());
            assert(strs_view(out@) =~= before + fault(opt_arr_strs_ok(e, "files"@), "'files' must be an array of strings"@));
        }
    } else {
        proof {
            assert(strs_view(out@) =~= before + fault(opt_arr_strs_ok(e, "files"@), "'files' must be an array of strings"@));
        }
    }
    let ghost g11 = g10 + fault(opt_arr_strs_ok(e, "files"@), "'files' must be an array of strings"@);
    proof {
        assert(strs_view(out@) == g11);
    }
    out
}

/// Finishes the collection with the last three checks.
#[verifier::rlimit(100)]
#[verifier::spinoff_prover]
fn shape_errors_back(entries: &Vec<(String, Json)>, front: Vec<String>) -> (r: Vec<String>)
    requires
        strs_view(front@) == ({
            let e = jv_entries(entries@);
            fault(req_str_ok(e, "id"@), "contract requires a string 'id'"@) + fault(req_str_ok(e, "version"@), "contract requires a string 'version'"@) + fault(req_str_ok(e, "name"@), "contract requires a string 'name'"@) + fault(req_str_ok(e, "description"@), "contract requires a string 'description'"@) + fault(priority_ok(e), "'priority' must be one of 'must', 'should', 'prefer'"@) + fault(status_ok(e), "'status' must be one of 'active', 'draft', 'deprecated'"@) + fault(opt_str_ok(e, "domain"@), "'domain' must be a string"@) + fault(opt_arr_strs_ok(e, "tags"@), "'tags' must be an array of strings"@) + fault(applies_ok(e), "'applies_to' must be a string or an array of strings"@) + fault(trigger_ok(e), "'trigger' must be a table with an optional string 'type'"@) + fault(opt_arr_strs_ok(e, "files"@), "'files' must be an array of strings"@)
        }),
    ensures
        strs_view(r@) == ({
            let e = jv_entries(entries@);
            fault(req_str_ok(e, "id"@), "contract requires a string 'id'"@) + fault(req_str_ok(e, "version"@), "contract requires a string 'version'"@) + fault(req_str_ok(e, "name"@), "contract requires a string 'name'"@) + fault(req_str_ok(e, "description"@), "contract requires a string 'description'"@) + fault(priority_ok(e), "'priority' must be one of 'must', 'should', 'prefer'"@) + fault(status_ok(e), "'status' must be one of 'active', 'draft', 'deprecated'"@) + fault(opt_str_ok(e, "domain"@), "'domain' must be a string"@) + fault(opt_arr_strs_ok(e, "tags"@), "'tags' must be an array of strings"@) + fault(applies_ok(e), "'applies_to' must be a string or an array of strings"@) + fault(trigger_ok(e), "'trigger' must be a table with an optional string 'type'"@) + fault(opt_arr_strs_ok(e, "files"@), "'files' must be an array of strings"@) + fault(rules_ok(e), "'rules' must be an array of tables with string 'id' and 'description'"@) + fault(opt_str_ok(e, "notes"@), "'notes' must be a string"@) + fault(changelog_ok(e), "'changelog' must be an array of tables with string 'version' and 'description'"@)
        }),
{
    let ghost e = jv_entries(entries@);
    let mut out = front;
    let ghost g11 = strs_view(out@);
    let ghost before = strs_view(out@);
    if !check_rules(entries) {
        let ghost prevvec = out@;
        out.push(String::from_str("'rules' must be an array of tables with string 'id' and 'description'"));
        proof {
            lemma_strs_view_push(prevvec, out@.last());
            assert(strs_view(out@) =~= before + fault(rules_ok(e), "'rules' must be an array of tables with string 'id' and 'description'"@));
        }
    } else {
        proof {
            assert(strs_view(out@) =~= before + fault(rules_ok(e), "'rules' must be an array of tables with string 'id' and 'description'"@));
        }
    }
    let ghost g12 = g11 + fault(rules_ok(e), "'rules' must be an array of tables with string 'id' and 'description'"@);
    proof {
        assert(strs_view(out@) == g12);
    }
    let ghost before = strs_view(out@);
    if !check_opt_str(entries, "notes") {
        let ghost prevvec = out@;
        out.push(String::from_str("'notes' must be a string"));
        proof {
            lemma_strs_view_push(prevvec, out@.last());
            assert(strs_view(out@) =~= before + fault(opt_str_ok(e, "notes"@), "'notes' must be a string"@));
        }
    } else {
        proof {
            assert(strs_view(out@) =~= before + fault(opt_str_ok(e, "notes"@), "'notes' must be a string"@));
        }
    }
    let ghost g13 = g12 + fault(opt_str_ok(e, "notes"@), "'notes' must be a string"@);
    proof {
        assert(strs_view(out@) == g13);
    }
    let ghost before = strs_view(out@);
    if !check_changelog(entries) {
        let ghost prevvec = out@;
        out.push(String::from_str("'changelog' must be an array of tables with string 'version' and 'description'"));
        proof {
            lemma_strs_view_push(prevvec, out@.last());
            assert(strs_view(out@) =~= before + fault(changelog_ok(e), "'changelog' must be an array of tables with string 'version' and 'description'"@));
        }
    } else {
        proof {
            assert(strs_view(out@) =~= before + fault(changelog_ok(e), "'changelog' must be an array of tables with string 'version' and 'description'"@));
        }
    }
    let ghost g14 = g13 + fault(changelog_ok(e), "'changelog' must be an array of tables with string 'version' and 'description'"@);
    proof {
        assert(strs_view(out@) == g14);
    }
    out
}

/// Collects every shape violation of a structural value against the record
/// grammar, in field order: the full list, where `contract_from_json`
/// reports only the first.
pub fn contract_shape_errors(j: &Json) -> (r: Vec<String>)
    ensures
        strs_view(r@) == shape_error_list(jv(*j)),
{
    let entries = match j {
        Json::Obj(entries) => entries,
        _ => {
            proof {
                lemma_jv_variant(*j);
            }
            let mut out: Vec<String> = Vec::new();
            out.push(String::from_str("contract must be a table"));
            proof {
                crate::model::lemma_strs_view_push(Seq::empty(), out@.last());
                assert(strs_view(out@) =~= shape_error_list(jv(*j)));
            }
            return out;
        },
    };
    let ghost e = jv_entries(entries@);
    proof {
        assert(jv(*j) == JsonV::Obj(e));
    }
    let front = shape_errors_front(entries);
    let front = shape_errors_mid(entries, front);
    let out = shape_errors_back(entries, front);
    proof {
        assert(strs_view(out@) =~= shape_error_list(jv(*j)));
    }
    out
}

} // verus!
