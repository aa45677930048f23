//! The typed shape of a contract record and its nested sub-records, the
//! mathematical model of each, and the two derived accessors every other
//! component is specified over: the referenced file paths and the declared
//! glob patterns.
use vstd::prelude::*;

use crate::json::{Json, JsonV, jv_entries};

verus! {

/// How strongly a contract binds.
#[derive(Clone, Copy, Debug, PartialEq, Eq, Structural)]
pub enum Priority {
    Must,
    Should,
    Prefer,
}

/// Lifecycle state of a contract.
#[derive(Clone, Copy, Debug, PartialEq, Eq, Structural)]
pub enum Status {
    Active,
    Draft,
    Deprecated,
}

/// One glob pattern or a list of them.
pub enum AppliesTo {
    Single(String),
    Multiple(Vec<String>),
}

/// A loosely typed activation record: an optional kind discriminator plus
/// arbitrary extra key/value data, preserved but not interpreted.
pub struct Trigger {
    pub kind: Option<String>,
    pub extra: Vec<(String, Json)>,
}

/// A sub-requirement nested in a contract; its id is unique only within
/// the owning contract.
pub struct Rule {
    pub id: String,
    pub description: String,
    pub files: Option<Vec<String>>,
    pub constraints: Option<Vec<String>>,
}

/// One entry of a contract's change history.
pub struct ChangelogEntry {
    pub version: String,
    pub date: Option<String>,
    pub description: String,
}

/// A contract record: the central entity of the store.
pub struct Contract {
    pub id: String,
    pub version: String,
    pub name: String,
    pub description: String,
    pub priority: Priority,
    pub status: Status,
    pub domain: Option<String>,
    pub tags: Option<Vec<String>>,
    pub applies_to: Option<AppliesTo>,
    pub trigger: Option<Trigger>,
    pub files: Option<Vec<String>>,
    pub rules: Option<Vec<Rule>>,
    pub notes: Option<String>,
    pub changelog: Option<Vec<ChangelogEntry>>,
    pub extra: Vec<(String, Json)>,
}

/// Model of `AppliesTo`.
#[verifier::ext_equal]
pub enum AppliesToV {
    Single(Seq<char>),
    Multiple(Seq<Seq<char>>),
}

/// Model of `Trigger`.
#[verifier::ext_equal]
pub struct TriggerV {
    pub kind: Option<Seq<char>>,
    pub extra: Seq<(Seq<char>, JsonV)>,
}

/// Model of `Rule`.
#[verifier::ext_equal]
pub struct RuleV {
    pub id: Seq<char>,
    pub description: Seq<char>,
    pub files: Option<Seq<Seq<char>>>,
    pub constraints: Option<Seq<Seq<char>>>,
}

/// Model of `ChangelogEntry`.
#[verifier::ext_equal]
pub struct ChangelogEntryV {
    pub version: Seq<char>,
    pub date: Option<Seq<char>>,
    pub description: Seq<char>,
}

/// Model of `Contract`.
#[verifier::ext_equal]
pub struct ContractV {
    pub id: Seq<char>,
    pub version: Seq<char>,
    pub name: Seq<char>,
    pub description: Seq<char>,
    pub priority: Priority,
    pub status: Status,
    pub domain: Option<Seq<char>>,
    pub tags: Option<Seq<Seq<char>>>,
    pub applies_to: Option<AppliesToV>,
    pub trigger: Option<TriggerV>,
    pub files: Option<Seq<Seq<char>>>,
    pub rules: Option<Seq<RuleV>>,
    pub notes: Option<Seq<char>>,
    pub changelog: Option<Seq<ChangelogEntryV>>,
    pub extra: Seq<(Seq<char>, JsonV)>,
}

/// Views of a sequence of strings.
pub open spec fn strs_view(v: Seq<String>) -> Seq<Seq<char>> {
    Seq::new(v.len(), |i: int| v[i]@)
}

/// Pushing a string pushes its view.
pub proof fn lemma_strs_view_push(v: Seq<String>, x: String)
    ensures
        strs_view(v.push(x)) =~= strs_view(v).push(x@),
{
    assert forall|j: int| 0 <= j < v.len() + 1 implies strs_view(v.push(x))[j] == strs_view(
        v,
    ).push(x@)[j] by {
        if j < v.len() {
            assert(v.push(x)[j] == v[j]);
        } else {
            assert(v.push(x)[j] == x);
        }
    }
}

/// Model of an optional string.
pub open spec fn opt_str_v(o: Option<String>) -> Option<Seq<char>> {
    match o {
        Some(s) => Some(s@),
        None => None,
    }
}

/// Model of an optional string list.
pub open spec fn opt_strs_v(o: Option<Vec<String>>) -> Option<Seq<Seq<char>>> {
    match o {
        Some(v) => Some(strs_view(v@)),
        None => None,
    }
}

/// Model of a rule.
pub open spec fn rule_v(r: Rule) -> RuleV {
    RuleV {
        id: r.id@,
        description: r.description@,
        files: opt_strs_v(r.files),
        constraints: opt_strs_v(r.constraints),
    }
}

/// Model of a change-log entry.
pub open spec fn changelog_entry_v(e: ChangelogEntry) -> ChangelogEntryV {
    ChangelogEntryV { version: e.version@, date: opt_str_v(e.date), description: e.description@ }
}

/// Model of an applies-to declaration.
pub open spec fn applies_to_v(a: AppliesTo) -> AppliesToV {
    match a {
        AppliesTo::Single(s) => AppliesToV::Single(s@),
        AppliesTo::Multiple(v) => AppliesToV::Multiple(strs_view(v@)),
    }
}

/// Model of a trigger.
pub open spec fn trigger_v(t: Trigger) -> TriggerV {
    TriggerV { kind: opt_str_v(t.kind), extra: jv_entries(t.extra@) }
}

/// Model of a contract.
pub open spec fn contract_v(c: Contract) -> ContractV {
    ContractV {
        id: c.id@,
        version: c.version@,
        name: c.name@,
        description: c.description@,
        priority: c.priority,
        status: c.status,
        domain: opt_str_v(c.domain),
        tags: opt_strs_v(c.tags),
        applies_to: match c.applies_to {
            Some(a) => Some(applies_to_v(a)),
            None => None,
        },
        trigger: match c.trigger {
            Some(t) => Some(trigger_v(t)),
            None => None,
        },
        files: opt_strs_v(c.files),
        rules: match c.rules {
            Some(rs) => Some(rs@.map_values(|r: Rule| rule_v(r))),
            None => None,
        },
        notes: opt_str_v(c.notes),
        changelog: match c.changelog {
            Some(es) => Some(es@.map_values(|e: ChangelogEntry| changelog_entry_v(e))),
            None => None,
        },
        extra: jv_entries(c.extra@),
    }
}

/// An optional path list read as a plain sequence: absent means empty.
pub open spec fn opt_files_seq(o: Option<Seq<Seq<char>>>) -> Seq<Seq<char>> {
    match o {
        Some(s) => s,
        None => Seq::empty(),
    }
}

/// The file paths declared by a prefix of the rule list, in declaration
/// order, duplicates kept.
pub open spec fn rules_files_v(rs: Seq<RuleV>) -> Seq<Seq<char>>
    decreases rs,
{
    if rs.len() == 0 {
        Seq::empty()
    } else {
        rules_files_v(rs.drop_last()) + opt_files_seq(rs.last().files)
    }
}

/// Every file path referenced by a contract: the top-level list followed by
/// each rule's list, in declaration order, duplicates kept.
pub open spec fn all_files_v(c: ContractV) -> Seq<Seq<char>> {
    opt_files_seq(c.files) + match c.rules {
        Some(rs) => rules_files_v(rs),
        None => Seq::empty(),
    }
}

/// The declared glob patterns as an ordered list: absent means empty, a
/// single pattern means a one-element list.
pub open spec fn patterns_v(c: ContractV) -> Seq<Seq<char>> {
    match c.applies_to {
        None => Seq::empty(),
        Some(AppliesToV::Single(s)) => seq![s],
        Some(AppliesToV::Multiple(v)) => v,
    }
}

/// Copies a string list; the copy has the same view.
pub fn clone_strings(v: &Vec<String>) -> (r: Vec<String>)
    ensures
        r@ == v@,
{
    let mut out: Vec<String> = Vec::new();
    let mut i: usize = 0;
    while i < v.len()
        invariant
            i <= v@.len(),
            out@ =~= v@.subrange(0, i as int),
        decreases v@.len() - i,
    {
        out.push(v[i].clone());
        proof {
            assert(out@ =~= v@.subrange(0, i + 1));
        }
        i = i + 1;
    }
    proof {
        assert(out@ =~= v@);
    }
    out
}

/// Copies an optional string.
pub fn clone_opt_string(o: &Option<String>) -> (r: Option<String>)
    ensures
        opt_str_v(r) == opt_str_v(*o),
        r is Some <==> o is Some,
{
    match o {
        Some(s) => Some(s.clone()),
        None => None,
    }
}

/// Copies an optional string list.
pub fn clone_opt_strings(o: &Option<Vec<String>>) -> (r: Option<Vec<String>>)
    ensures
        opt_strs_v(r) == opt_strs_v(*o),
        r is Some <==> o is Some,
{
    match o {
        Some(v) => Some(clone_strings(v)),
        None => None,
    }
}

impl Contract {
    /// All file paths referenced in this contract.
    pub fn all_files(&self) -> (r: Vec<String>)
        ensures
            strs_view(r@) == all_files_v(contract_v(*self)),
    {
        let mut paths: Vec<String> = Vec::new();
        if let Some(files) = &self.files {
            let mut i: usize = 0;
            while i < files.len()
                invariant
                    self.files == Some(*files),
                    i <= files@.len(),
                    strs_view(paths@) =~= strs_view(files@).subrange(0, i as int),
                decreases files@.len() - i,
            {
                let x = files[i].clone();
                proof {
                    lemma_strs_view_push(paths@, x);
                    assert(strs_view(files@)[i as int] == files@[i as int]@);
                }
                paths.push(x);
                proof {
                    assert(strs_view(paths@) =~= strs_view(files@).subrange(0, i + 1));
                }
                i = i + 1;
            }
            proof {
                assert(strs_view(files@).subrange(0, files@.len() as int) =~= strs_view(files@));
            }
        }
        let ghost head = strs_view(paths@);
        proof {
            assert(head =~= opt_files_seq(contract_v(*self).files));
        }
        if let Some(rules) = &self.rules {
            let ghost rsv = rules@.map_values(|r: Rule| rule_v(r));
            let mut k: usize = 0;
            while k < rules.len()
                invariant
                    self.rules == Some(*rules),
                    rsv == rules@.map_values(|r: Rule| rule_v(r)),
                    rsv.len() == rules@.len(),
                    k <= rules@.len(),
                    strs_view(paths@) =~= head + rules_files_v(rsv.take(k as int)),
                decreases rules@.len() - k,
            {
                if let Some(files) = &rules[k].files {
                    let ghost before = strs_view(paths@);
                    let mut i: usize = 0;
                    while i < files.len()
                        invariant
                            rules@[k as int].files == Some(*files),
                            k < rules@.len(),
                            i <= files@.len(),
                            strs_view(paths@) =~= before + strs_view(files@).subrange(
                                0,
                                i as int,
                            ),
                        decreases files@.len() - i,
                    {
                        let x = files[i].clone();
                        proof {
                            lemma_strs_view_push(paths@, x);
                            assert(strs_view(files@)[i as int] == files@[i as int]@);
                        }
                        paths.push(x);
                        proof {
                            assert(strs_view(paths@) =~= before + strs_view(files@).subrange(
                                0,
                                i + 1,
                            ));
                        }
                        i = i + 1;
                    }
                    proof {
                        assert(strs_view(files@).subrange(0, files@.len() as int) =~= strs_view(
                            files@,
                        ));
                        assert(opt_files_seq(rule_v(rules@[k as int]).files) =~= strs_view(
                            files@,
                        ));
                    }
                } else {
                    proof {
                        assert(opt_files_seq(rule_v(rules@[k as int]).files) =~= Seq::<
                            Seq<char>,
                        >::empty());
                    }
                }
                proof {
                    assert(rsv.take(k + 1).drop_last() =~= rsv.take(k as int));
                    assert(rsv.take(k + 1).last() == rsv[k as int]);
                    assert(rsv[k as int] == rule_v(rules@[k as int]));
                    assert(strs_view(paths@) =~= head + rules_files_v(rsv.take(k + 1)));
                }
                k = k + 1;
            }
            proof {
                assert(rsv.take(rsv.len() as int) =~= rsv);
                assert(strs_view(paths@) =~= all_files_v(contract_v(*self)));
            }
        } else {
            proof {
                assert(strs_view(paths@) =~= all_files_v(contract_v(*self)));
            }
        }
        paths
    }

    /// The applies-to declaration normalized to an ordered pattern list.
    pub fn applies_to_patterns(&self) -> (r: Vec<String>)
        ensures
            strs_view(r@) == patterns_v(contract_v(*self)),
    {
        match &self.applies_to {
            None => {
                let r: Vec<String> = Vec::new();
                proof {
                    assert(strs_view(r@) =~= patterns_v(contract_v(*self)));
                }
                r
            },
            Some(AppliesTo::Single(s)) => {
                let mut r: Vec<String> = Vec::new();
                r.push(s.clone());
                proof {
                    assert(strs_view(r@) =~= patterns_v(contract_v(*self)));
                }
                r
            },
            Some(AppliesTo::Multiple(v)) => {
                let r = clone_strings(v);
                proof {
                    assert(strs_view(r@) =~= patterns_v(contract_v(*self)));
                }
                r
            },
        }
    }
}

} // verus!
