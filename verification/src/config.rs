//! Process configuration: the directory holding the record files, an
//! optional override of the agent instructions, and optional project
//! notes. Unlike a contract record, a configuration rejects unknown
//! fields outright.
use vstd::prelude::*;

use crate::json::{Json, JsonV, jv, jv_entries, ov_get, lemma_jv_entries_index};
use crate::schema::field_of;

verus! {

/// The instructions delivered to agents when the configuration does not
/// override them.
pub const DEFAULT_INSTRUCTIONS: &'static str = "Work from the contract store: list the contracts, read the ones your change touches, and keep them satisfied. Use the matching tools to find the contracts affected by a set of changed files, validate after edits, and record meaningful updates in the change log.";

/// Process configuration.
pub struct Config {
    pub contracts_dir: String,
    pub instructions: Option<String>,
    pub notes: Option<String>,
}

/// The default record directory.
pub fn default_contracts_dir() -> (r: String)
    ensures
        r@ == "contracts/"@,
{
    String::from_str("contracts/")
}

impl Default for Config {
    /// The configuration used when no configuration file exists.
    fn default() -> (r: Config)
        ensures
            r.contracts_dir@ == "contracts/"@,
            r.instructions is None,
            r.notes is None,
    {
        Config { contracts_dir: default_contracts_dir(), instructions: None, notes: None }
    }
}

impl Config {
    /// The instructions to deliver: the override when set, the built-in
    /// text otherwise.
    pub fn instructions(&self) -> (r: &str)
        ensures
            r@ == match crate::model::opt_str_v(self.instructions) {
                Some(s) => s,
                None => DEFAULT_INSTRUCTIONS@,
            },
    {
        match &self.instructions {
            Some(s) => s.as_str(),
            None => DEFAULT_INSTRUCTIONS,
        }
    }
}

/// A key the configuration accepts.
pub open spec fn config_key(k: Seq<char>) -> bool {
    k == "contracts_dir"@ || k == "instructions"@ || k == "notes"@
}

/// The first configuration shape violation: not a table, an unknown field
/// (rejected outright, unlike a contract's open extra bag), or a
/// wrongly typed field.
pub open spec fn config_shape_error(m: JsonV) -> Option<Seq<char>> {
    if !(m is Obj) {
        Some("configuration must be a table"@)
    } else {
        let e = m->Obj_0;
        if !(forall|i: int| 0 <= i < e.len() ==> config_key(#[trigger] e[i].0)) {
            Some("configuration has an unknown field"@)
        } else if !(match ov_get(e, "contracts_dir"@) {
            None => true,
            Some(v) => v is Str,
        }) {
            Some("'contracts_dir' must be a string"@)
        } else if !(match ov_get(e, "instructions"@) {
            None => true,
            Some(v) => v is Str,
        }) {
            Some("'instructions' must be a string"@)
        } else if !(match ov_get(e, "notes"@) {
            None => true,
            Some(v) => v is Str,
        }) {
            Some("'notes' must be a string"@)
        } else {
            None
        }
    }
}

/// The configuration a well-shaped table denotes: a missing directory
/// falls back to the default.
pub open spec fn config_of(m: JsonV) -> (Seq<char>, Option<Seq<char>>, Option<Seq<char>>) {
    let e = m->Obj_0;
    (
        match ov_get(e, "contracts_dir"@) {
            Some(JsonV::Str(s)) => s,
            _ => "contracts/"@,
        },
        match ov_get(e, "instructions"@) {
            Some(JsonV::Str(s)) => Some(s),
            _ => None,
        },
        match ov_get(e, "notes"@) {
            Some(JsonV::Str(s)) => Some(s),
            _ => None,
        },
    )
}

impl Config {
    /// Reads a configuration out of a parsed structural value, rejecting
    /// unknown fields outright.
    pub fn from_json(j: &Json) -> (r: Result<Config, String>)
        ensures
            r is Ok <==> config_shape_error(jv(*j)) is None,
            r matches Err(m) ==> Some(m@) == config_shape_error(jv(*j)),
            r matches Ok(c) ==> (c.contracts_dir@, crate::model::opt_str_v(c.instructions),
            crate::model::opt_str_v(c.notes)) == config_of(jv(*j)),
    {
        let entries = match j {
            Json::Obj(entries) => entries,
            _ => {
                proof {
                    crate::schema::lemma_jv_variant(*j);
                }
                return Err(String::from_str("configuration must be a table"));
            },
        };
        let ghost e = jv_entries(entries@);
        proof {
            assert(jv(*j) == JsonV::Obj(e));
            lemma_jv_entries_index(entries@);
        }
        let mut i: usize = 0;
        while i < entries.len()
            invariant
                i <= entries@.len(),
                jv(*j) == JsonV::Obj(e),
                e == jv_entries(entries@),
                e.len() == entries@.len(),
                forall|k: int| 0 <= k < entries@.len() ==> e[k] == (
                    entries@[k].0@,
                    jv(entries@[k].1),
                ),
                forall|k: int| 0 <= k < i ==> config_key(#[trigger] e[k].0),
            decreases entries@.len() - i,
        {
            let known = crate::json::str_eq(entries[i].0.as_str(), "contracts_dir")
                || crate::json::str_eq(entries[i].0.as_str(), "instructions")
                || crate::json::str_eq(entries[i].0.as_str(), "notes");
            if !known {
                proof {
                    assert(!config_key(e[i as int].0));
                }
                return Err(String::from_str("configuration has an unknown field"));
            }
            i = i + 1;
        }
        let contracts_dir = match field_of(entries, "contracts_dir") {
            None => default_contracts_dir(),
            Some(Json::Str(s)) => s.clone(),
            Some(x) => {
                proof {
                    crate::schema::lemma_jv_variant(*x);
                }
                return Err(String::from_str("'contracts_dir' must be a string"));
            },
        };
        let instructions = match field_of(entries, "instructions") {
            None => None,
            Some(Json::Str(s)) => Some(s.clone()),
            Some(x) => {
                proof {
                    crate::schema::lemma_jv_variant(*x);
                }
                return Err(String::from_str("'instructions' must be a string"));
            },
        };
        let notes = match field_of(entries, "notes") {
            None => None,
            Some(Json::Str(s)) => Some(s.clone()),
            Some(x) => {
                proof {
                    crate::schema::lemma_jv_variant(*x);
                }
                return Err(String::from_str("'notes' must be a string"));
            },
        };
        Ok(Config { contracts_dir, instructions, notes })
    }
}

} // verus!
