//! Validation of loaded contracts: the canonical form held against the
//! record grammar, dangling file references, duplicate rule ids within one
//! contract, and the id/filename consistency check, which only ever warns.
//! A validation passes exactly when its error list is empty.
use vstd::prelude::*;

use crate::json::str_eq;
use crate::model::{Contract, ContractV, RuleV, contract_v, all_files_v, strs_view};
use crate::schema::{shape_error_list, lemma_shape_error_list, canon_json, contract_to_json,
    contract_shape_errors};

verus! {

/// What kind of finding an issue reports.
#[derive(Clone, Copy, Debug, PartialEq, Eq, Structural)]
pub enum IssueKind {
    Schema,
    MissingFile,
    DuplicateRuleId,
    FilenameMismatch,
    LoadWarning,
}

/// One validation finding.
pub struct Issue {
    pub kind: IssueKind,
    pub contract_id: Option<String>,
    pub message: String,
    pub file: Option<String>,
}

/// Model of an issue.
#[verifier::ext_equal]
pub struct IssueV {
    pub kind: IssueKind,
    pub contract_id: Option<Seq<char>>,
    pub message: Seq<char>,
    pub file: Option<Seq<char>>,
}

/// The model of an issue value.
pub open spec fn issue_v(i: Issue) -> IssueV {
    IssueV {
        kind: i.kind,
        contract_id: crate::model::opt_str_v(i.contract_id),
        message: i.message@,
        file: crate::model::opt_str_v(i.file),
    }
}

/// The serialized tag of an issue kind.
pub open spec fn kind_name(k: IssueKind) -> Seq<char> {
    match k {
        IssueKind::Schema => "schema"@,
        IssueKind::MissingFile => "missing_file"@,
        IssueKind::DuplicateRuleId => "duplicate_rule_id"@,
        IssueKind::FilenameMismatch => "filename_mismatch"@,
        IssueKind::LoadWarning => "load_warning"@,
    }
}

impl Issue {
    /// The serialized tag of this issue's kind.
    pub fn kind_str(&self) -> (r: String)
        ensures
            r@ == kind_name(self.kind),
    {
        match self.kind {
            IssueKind::Schema => String::from_str("schema"),
            IssueKind::MissingFile => String::from_str("missing_file"),
            IssueKind::DuplicateRuleId => String::from_str("duplicate_rule_id"),
            IssueKind::FilenameMismatch => String::from_str("filename_mismatch"),
            IssueKind::LoadWarning => String::from_str("load_warning"),
        }
    }
}

/// A directory prefix with its trailing slashes removed.
pub open spec fn trim_slashes(s: Seq<char>) -> Seq<char>
    decreases s,
{
    if s.len() > 0 && s.last() == '/' {
        trim_slashes(s.drop_last())
    } else {
        s
    }
}

/// The conventional storage path of a contract id.
pub open spec fn expected_path_v(dir: Seq<char>, id: Seq<char>) -> Seq<char> {
    trim_slashes(dir) + "/"@ + id + ".contract.toml"@
}

/// Removes trailing slashes from a directory prefix.
fn trim_trailing_slashes(dir: &str) -> (r: String)
    ensures
        r@ == trim_slashes(dir@),
{
    let mut end = dir.unicode_len();
    proof {
        assert(dir@.take(dir@.len() as int) =~= dir@);
    }
    while end > 0 && dir.get_char(end - 1) == '/'
        invariant
            end <= dir@.len(),
            trim_slashes(dir@) == trim_slashes(dir@.take(end as int)),
        decreases end,
    {
        proof {
            assert(dir@.take(end as int).last() == dir@[end - 1]);
            assert(dir@.take(end as int).drop_last() =~= dir@.take(end - 1));
        }
        end = end - 1;
    }
    proof {
        if end > 0 {
            assert(dir@.take(end as int).last() == dir@[end - 1]);
        }
        assert(trim_slashes(dir@.take(end as int)) == dir@.take(end as int));
    }
    let out = dir.substring_char(0, end);
    proof {
        assert(out@ =~= dir@.take(end as int));
    }
    String::from_str(out)
}

/// Builds the conventional storage path of a contract id.
pub fn expected_path(dir: &str, id: &str) -> (r: String)
    ensures
        r@ == expected_path_v(dir@, id@),
{
    let mut p = trim_trailing_slashes(dir);
    p.append("/");
    p.append(id);
    p.append(".contract.toml");
    p
}

/// The schema issues of a contract: its canonical form held against the
/// record grammar, one issue per violation, in field order.
pub open spec fn schema_issues(cv: ContractV, cid: Option<Seq<char>>) -> Seq<IssueV> {
    shape_error_list(canon_json(cv)).map_values(
        |m: Seq<char>|
            IssueV { kind: IssueKind::Schema, contract_id: cid, message: m, file: None },
    )
}

/// The canonical re-check never finds a schema fault in a record the
/// grammar admitted: a loaded contract's schema issues are empty.
pub proof fn lemma_loaded_schema_issues_empty(m: crate::json::JsonV, cid: Option<Seq<char>>)
    ensures
        schema_issues(crate::schema::contract_of(m), cid) == Seq::<IssueV>::empty(),
{
    crate::schema::lemma_contract_of_wf(m);
    crate::schema::lemma_canonical_roundtrip(crate::schema::contract_of(m));
    lemma_shape_error_list(canon_json(crate::schema::contract_of(m)));
    assert(schema_issues(crate::schema::contract_of(m), cid) =~= Seq::<IssueV>::empty());
}

/// The missing-file message for a referenced path.
pub open spec fn missing_message(path: Seq<char>) -> Seq<char> {
    "Referenced file does not exist: '"@ + path + "'"@
}

/// The missing-file issues: one per referenced path that is absent on
/// disk, in declaration order.
pub open spec fn missing_issues(
    cid: Option<Seq<char>>,
    paths: Seq<Seq<char>>,
    present: Seq<bool>,
) -> Seq<IssueV>
    decreases paths,
{
    if paths.len() == 0 || paths.len() != present.len() {
        Seq::empty()
    } else {
        missing_issues(cid, paths.drop_last(), present.drop_last()) + if present.last() {
            Seq::empty()
        } else {
            seq![
                IssueV {
                    kind: IssueKind::MissingFile,
                    contract_id: cid,
                    message: missing_message(paths.last()),
                    file: Some(paths.last()),
                },
            ]
        }
    }
}

/// The duplicate-rule message for a repeated id.
pub open spec fn duplicate_message(id: Seq<char>) -> Seq<char> {
    "Duplicate rule id: '"@ + id + "'"@
}

/// Some rule in the list carries this id.
pub open spec fn rules_have_id(rs: Seq<RuleV>, id: Seq<char>) -> bool
    decreases rs,
{
    if rs.len() == 0 {
        false
    } else {
        rules_have_id(rs.drop_last(), id) || rs.last().id == id
    }
}

/// The duplicate-rule-id issues: every occurrence of an id after its first
/// is flagged once, in order; first occurrences are never flagged.
pub open spec fn duplicate_issues(cid: Option<Seq<char>>, rs: Seq<RuleV>) -> Seq<IssueV>
    decreases rs,
{
    if rs.len() == 0 {
        Seq::empty()
    } else {
        duplicate_issues(cid, rs.drop_last()) + if rules_have_id(rs.drop_last(), rs.last().id) {
            seq![
                IssueV {
                    kind: IssueKind::DuplicateRuleId,
                    contract_id: cid,
                    message: duplicate_message(rs.last().id),
                    file: None,
                },
            ]
        } else {
            Seq::empty()
        }
    }
}

/// Each occurrence of a rule id is flagged exactly when an earlier rule in
/// the same contract carries the same id: the first occurrence never is,
/// every later occurrence is flagged exactly once.
pub proof fn lemma_duplicate_rule_flags(cid: Option<Seq<char>>, rs: Seq<RuleV>, i: int)
    requires
        0 <= i < rs.len(),
    ensures
        duplicate_issues(cid, rs.take(i + 1)).len() == duplicate_issues(cid, rs.take(i)).len() + (
        if rules_have_id(rs.take(i), rs[i].id) {
            1int
        } else {
            0int
        }),
{
    assert(rs.take(i + 1).drop_last() =~= rs.take(i));
    assert(rs.take(i + 1).last() == rs[i]);
}

/// The rules of a contract, or the empty list.
pub open spec fn rules_or_empty(cv: ContractV) -> Seq<RuleV> {
    match cv.rules {
        Some(rs) => rs,
        None => Seq::empty(),
    }
}

/// The error issues of one contract, in check order: schema, then missing
/// files, then duplicate rule ids; no check short-circuits another.
pub open spec fn contract_errors(
    cv: ContractV,
    cid: Option<Seq<char>>,
    present: Seq<bool>,
) -> Seq<IssueV> {
    schema_issues(cv, cid) + missing_issues(cid, all_files_v(cv), present) + duplicate_issues(
        cid,
        rules_or_empty(cv),
    )
}

/// No error issue carries the filename-mismatch or load-warning kind: those
/// findings never block a pass.
pub proof fn lemma_error_kinds(cv: ContractV, cid: Option<Seq<char>>, present: Seq<bool>)
    ensures
        forall|i: int|
            0 <= i < contract_errors(cv, cid, present).len() ==> {
                let k = (#[trigger] contract_errors(cv, cid, present)[i]).kind;
                k == IssueKind::Schema || k == IssueKind::MissingFile || k
                    == IssueKind::DuplicateRuleId
            },
{
    lemma_missing_kinds(cid, all_files_v(cv), present);
    lemma_duplicate_kinds(cid, rules_or_empty(cv));
}

proof fn lemma_missing_kinds(cid: Option<Seq<char>>, paths: Seq<Seq<char>>, present: Seq<bool>)
    ensures
        forall|i: int|
            0 <= i < missing_issues(cid, paths, present).len() ==> (#[trigger] missing_issues(
                cid,
                paths,
                present,
            )[i]).kind == IssueKind::MissingFile,
    decreases paths,
{
    if paths.len() > 0 && paths.len() == present.len() {
        lemma_missing_kinds(cid, paths.drop_last(), present.drop_last());
    }
}

proof fn lemma_duplicate_kinds(cid: Option<Seq<char>>, rs: Seq<RuleV>)
    ensures
        forall|i: int|
            0 <= i < duplicate_issues(cid, rs).len() ==> (#[trigger] duplicate_issues(
                cid,
                rs,
            )[i]).kind == IssueKind::DuplicateRuleId,
    decreases rs,
{
    if rs.len() > 0 {
        lemma_duplicate_kinds(cid, rs.drop_last());
    }
}

/// Builds the missing-file issues of one contract.
fn build_missing_issues(cid: &Option<String>, paths: &Vec<String>, present: &Vec<bool>) -> (r: Vec<
    Issue,
>)
    requires
        paths@.len() == present@.len(),
    ensures
        r@.map_values(|x: Issue| issue_v(x)) == missing_issues(
            crate::model::opt_str_v(*cid),
            strs_view(paths@),
            present@,
        ),
{
    let ghost cidv = crate::model::opt_str_v(*cid);
    let ghost pv = strs_view(paths@);
    let mut out: Vec<Issue> = Vec::new();
    let mut i: usize = 0;
    while i < paths.len()
        invariant
            i <= paths@.len(),
            paths@.len() == present@.len(),
            cidv == crate::model::opt_str_v(*cid),
            pv == strs_view(paths@),
            pv.len() == paths@.len(),
            out@.map_values(|x: Issue| issue_v(x)) =~= missing_issues(
                cidv,
                pv.take(i as int),
                present@.take(i as int),
            ),
        decreases paths@.len() - i,
    {
        proof {
            assert(pv.take(i + 1).drop_last() =~= pv.take(i as int));
            assert(present@.take(i + 1).drop_last() =~= present@.take(i as int));
            assert(pv.take(i + 1).last() == pv[i as int]);
            assert(pv[i as int] == paths@[i as int]@);
            assert(present@.take(i + 1).last() == present@[i as int]);
        }
        if !present[i] {
            let mut m = String::from_str("Referenced file does not exist: '");
            m.append(paths[i].as_str());
            m.append("'");
            let issue = Issue {
                kind: IssueKind::MissingFile,
                contract_id: crate::model::clone_opt_string(cid),
                message: m,
                file: Some(paths[i].clone()),
            };
            let ghost prev = out@;
            out.push(issue);
            proof {
                let f = |x: Issue| issue_v(x);
                assert(out@ =~= prev.push(out@.last()));
                assert(out@.map_values(f) =~= prev.map_values(f).push(issue_v(out@.last())));
                assert(issue_v(out@.last()) =~~= missing_issues(
                    cidv,
                    pv.take(i + 1),
                    present@.take(i + 1),
                ).last());
                assert(out@.map_values(f) =~= missing_issues(
                    cidv,
                    pv.take(i + 1),
                    present@.take(i + 1),
                ));
            }
        } else {
            proof {
                assert(out@.map_values(|x: Issue| issue_v(x)) =~= missing_issues(
                    cidv,
                    pv.take(i + 1),
                    present@.take(i + 1),
                ));
            }
        }
        i = i + 1;
    }
    proof {
        assert(pv.take(pv.len() as int) =~= pv);
        assert(present@.take(present@.len() as int) =~= present@);
    }
    out
}

/// Does any rule before this index carry the same id?
fn earlier_rule_with_id(rules: &Vec<crate::model::Rule>, i: usize) -> (r: bool)
    requires
        i < rules@.len(),
    ensures
        r == rules_have_id(
            rules@.map_values(|x: crate::model::Rule| crate::model::rule_v(x)).take(i as int),
            rules@[i as int].id@,
        ),
{
    let ghost rsv = rules@.map_values(|x: crate::model::Rule| crate::model::rule_v(x));
    let mut j: usize = 0;
    while j < i
        invariant
            j <= i,
            i < rules@.len(),
            rsv == rules@.map_values(|x: crate::model::Rule| crate::model::rule_v(x)),
            rsv.len() == rules@.len(),
            !rules_have_id(rsv.take(j as int), rules@[i as int].id@),
        decreases i - j,
    {
        proof {
            assert(rsv.take(j + 1).drop_last() =~= rsv.take(j as int));
            assert(rsv.take(j + 1).last() == rsv[j as int]);
            assert(rsv[j as int] == crate::model::rule_v(rules@[j as int]));
        }
        if str_eq(rules[j].id.as_str(), rules[i].id.as_str()) {
            proof {
                assert(rules_have_id(rsv.take(j + 1), rules@[i as int].id@));
                lemma_rules_have_id_prefix(rsv.take(i as int), rules@[i as int].id@, j + 1);
            }
            return true;
        }
        proof {
            assert(!rules_have_id(rsv.take(j + 1), rules@[i as int].id@));
        }
        j = j + 1;
    }
    proof {
        assert(rsv.take(i as int).take(i as int) =~= rsv.take(i as int));
    }
    false
}

/// An id found in a prefix is found in the whole list.
proof fn lemma_rules_have_id_prefix(rs: Seq<RuleV>, id: Seq<char>, k: int)
    requires
        0 <= k <= rs.len(),
        rules_have_id(rs.take(k), id),
    ensures
        rules_have_id(rs, id),
    decreases rs.len() - k,
{
    if k < rs.len() {
        assert(rs.take(k + 1).drop_last() =~= rs.take(k));
        lemma_rules_have_id_prefix(rs, id, k + 1);
    } else {
        assert(rs.take(k) =~= rs);
    }
}

/// Builds the duplicate-rule-id issues of one contract.
fn build_duplicate_issues(cid: &Option<String>, c: &Contract) -> (r: Vec<Issue>)
    ensures
        r@.map_values(|x: Issue| issue_v(x)) == duplicate_issues(
            crate::model::opt_str_v(*cid),
            rules_or_empty(contract_v(*c)),
        ),
{
    let ghost cidv = crate::model::opt_str_v(*cid);
    let mut out: Vec<Issue> = Vec::new();
    match &c.rules {
        None => {
            proof {
                assert(out@.map_values(|x: Issue| issue_v(x)) =~= duplicate_issues(
                    cidv,
                    rules_or_empty(contract_v(*c)),
                ));
            }
        },
        Some(rules) => {
            let ghost rsv = rules@.map_values(
                |x: crate::model::Rule| crate::model::rule_v(x),
            );
            proof {
                assert(rules_or_empty(contract_v(*c)) == rsv);
            }
            let mut i: usize = 0;
            while i < rules.len()
                invariant
                    i <= rules@.len(),
                    cidv == crate::model::opt_str_v(*cid),
                    rsv == rules@.map_values(|x: crate::model::Rule| crate::model::rule_v(x)),
                    rsv.len() == rules@.len(),
                    out@.map_values(|x: Issue| issue_v(x)) =~= duplicate_issues(
                        cidv,
                        rsv.take(i as int),
                    ),
                decreases rules@.len() - i,
            {
                proof {
                    assert(rsv.take(i + 1).drop_last() =~= rsv.take(i as int));
                    assert(rsv.take(i + 1).last() == rsv[i as int]);
                    assert(rsv[i as int] == crate::model::rule_v(rules@[i as int]));
                }
                if earlier_rule_with_id(rules, i) {
                    let mut m = String::from_str("Duplicate rule id: '");
                    m.append(rules[i].id.as_str());
                    m.append("'");
                    let issue = Issue {
                        kind: IssueKind::DuplicateRuleId,
                        contract_id: crate::model::clone_opt_string(cid),
                        message: m,
                        file: None,
                    };
                    let ghost prev = out@;
                    out.push(issue);
                    proof {
                        let f = |x: Issue| issue_v(x);
                        assert(out@ =~= prev.push(out@.last()));
                        assert(out@.map_values(f) =~= prev.map_values(f).push(
                            issue_v(out@.last()),
                        ));
                        assert(issue_v(out@.last()) =~~= duplicate_issues(
                            cidv,
                            rsv.take(i + 1),
                        ).last());
                        assert(out@.map_values(f) =~= duplicate_issues(cidv, rsv.take(i + 1)));
                    }
                } else {
                    proof {
                        assert(out@.map_values(|x: Issue| issue_v(x)) =~= duplicate_issues(
                            cidv,
                            rsv.take(i + 1),
                        ));
                    }
                }
                i = i + 1;
            }
            proof {
                assert(rsv.take(rsv.len() as int) =~= rsv);
            }
        },
    }
    out
}

/// Builds the schema issues of one contract: its canonical form re-checked
/// against the record grammar, one issue per violation, in field order.
fn build_schema_issues(cid: &Option<String>, c: &Contract) -> (r: Vec<Issue>)
    ensures
        r@.map_values(|x: Issue| issue_v(x)) == schema_issues(
            contract_v(*c),
            crate::model::opt_str_v(*cid),
        ),
{
    let canonical = contract_to_json(c);
    let msgs = contract_shape_errors(&canonical);
    let ghost ml = shape_error_list(canon_json(contract_v(*c)));
    let mut out: Vec<Issue> = Vec::new();
    let mut i: usize = 0;
    while i < msgs.len()
        invariant
            i <= msgs@.len(),
            ml == shape_error_list(canon_json(contract_v(*c))),
            strs_view(msgs@) == ml,
            ml.len() == msgs@.len(),
            out@.map_values(|x: Issue| issue_v(x)) =~= ml.take(i as int).map_values(
                |m: Seq<char>|
                    IssueV {
                        kind: IssueKind::Schema,
                        contract_id: crate::model::opt_str_v(*cid),
                        message: m,
                        file: None,
                    },
            ),
        decreases msgs@.len() - i,
    {
        let issue = Issue {
            kind: IssueKind::Schema,
            contract_id: crate::model::clone_opt_string(cid),
            message: msgs[i].clone(),
            file: None,
        };
        let ghost prev = out@;
        out.push(issue);
        proof {
            let f = |x: Issue| issue_v(x);
            assert(out@ =~= prev.push(out@.last()));
            assert(out@.map_values(f) =~= prev.map_values(f).push(issue_v(out@.last())));
            assert(issue_v(out@.last()).message == ml[i as int]) by {
                assert(strs_view(msgs@)[i as int] == msgs@[i as int]@);
            }
            assert(out@.map_values(f) =~= ml.take(i + 1).map_values(
                |m: Seq<char>|
                    IssueV {
                        kind: IssueKind::Schema,
                        contract_id: crate::model::opt_str_v(*cid),
                        message: m,
                        file: None,
                    },
            ));
        }
        i = i + 1;
    }
    proof {
        assert(ml.take(ml.len() as int) =~= ml);
        assert(out@.map_values(|x: Issue| issue_v(x)) =~= schema_issues(
            contract_v(*c),
            crate::model::opt_str_v(*cid),
        ));
    }
    out
}

/// Runs the three error checks of one contract, in order, given which of
/// its referenced paths exist on disk.
pub fn contract_error_issues(c: &Contract, cid: &Option<String>, present: &Vec<bool>) -> (r: Vec<
    Issue,
>)
    requires
        present@.len() == all_files_v(contract_v(*c)).len(),
    ensures
        r@.map_values(|x: Issue| issue_v(x)) == contract_errors(
            contract_v(*c),
            crate::model::opt_str_v(*cid),
            present@,
        ),
{
    let mut out = build_schema_issues(cid, c);
    let paths = c.all_files();
    let mut missing = build_missing_issues(cid, &paths, present);
    let mut dups = build_duplicate_issues(cid, c);
    let ghost a = out@;
    let ghost b = missing@;
    let ghost d = dups@;
    out.append(&mut missing);
    out.append(&mut dups);
    proof {
        let f = |x: Issue| issue_v(x);
        assert(out@ =~= a + b + d);
        assert(out@.map_values(f) =~= a.map_values(f) + b.map_values(f) + d.map_values(f));
        assert(out@.map_values(f) =~= contract_errors(
            contract_v(*c),
            crate::model::opt_str_v(*cid),
            present@,
        ));
    }
    out
}

/// The filename-mismatch warning of a single-contract validation.
pub open spec fn mismatch_message_single(exp: Seq<char>, id: Seq<char>) -> Seq<char> {
    "No file found at expected path '"@ + exp + "' for contract id '"@ + id + "'"@
}

/// The filename-mismatch warning of a batch validation.
pub open spec fn mismatch_message_batch(id: Seq<char>, exp: Seq<char>) -> Seq<char> {
    "Contract id '"@ + id + "' has no matching file at '"@ + exp + "'"@
}

/// The filename-mismatch warnings of one contract: one warning when no file
/// sits at the conventional path, none otherwise; never an error.
pub open spec fn mismatch_warnings(
    cid: Option<Seq<char>>,
    msg: Seq<char>,
    exp: Seq<char>,
    id_file_present: bool,
) -> Seq<IssueV> {
    if id_file_present {
        Seq::empty()
    } else {
        seq![
            IssueV {
                kind: IssueKind::FilenameMismatch,
                contract_id: cid,
                message: msg,
                file: Some(exp),
            },
        ]
    }
}

/// Builds the filename-mismatch warning of a single-contract validation.
pub fn build_mismatch_single(c: &Contract, dir: &str, id_file_present: bool) -> (r: Vec<Issue>)
    ensures
        r@.map_values(|x: Issue| issue_v(x)) == mismatch_warnings(
            None,
            mismatch_message_single(expected_path_v(dir@, contract_v(*c).id), contract_v(*c).id),
            expected_path_v(dir@, contract_v(*c).id),
            id_file_present,
        ),
{
    let mut out: Vec<Issue> = Vec::new();
    if !id_file_present {
        let exp = expected_path(dir, c.id.as_str());
        let mut m = String::from_str("No file found at expected path '");
        m.append(exp.as_str());
        m.append("' for contract id '");
        m.append(c.id.as_str());
        m.append("'");
        out.push(Issue {
            kind: IssueKind::FilenameMismatch,
            contract_id: None,
            message: m,
            file: Some(exp),
        });
    }
    proof {
        assert(out@.map_values(|x: Issue| issue_v(x)) =~~= mismatch_warnings(
            None,
            mismatch_message_single(expected_path_v(dir@, contract_v(*c).id), contract_v(*c).id),
            expected_path_v(dir@, contract_v(*c).id),
            id_file_present,
        ));
    }
    out
}

/// Builds the filename-mismatch warning of a batch validation.
pub fn build_mismatch_batch(c: &Contract, dir: &str, id_file_present: bool) -> (r: Vec<Issue>)
    ensures
        r@.map_values(|x: Issue| issue_v(x)) == mismatch_warnings(
            Some(contract_v(*c).id),
            mismatch_message_batch(contract_v(*c).id, expected_path_v(dir@, contract_v(*c).id)),
            expected_path_v(dir@, contract_v(*c).id),
            id_file_present,
        ),
{
    let mut out: Vec<Issue> = Vec::new();
    if !id_file_present {
        let exp = expected_path(dir, c.id.as_str());
        let mut m = String::from_str("Contract id '");
        m.append(c.id.as_str());
        m.append("' has no matching file at '");
        m.append(exp.as_str());
        m.append("'");
        out.push(Issue {
            kind: IssueKind::FilenameMismatch,
            contract_id: Some(c.id.clone()),
            message: m,
            file: Some(exp),
        });
    }
    proof {
        assert(out@.map_values(|x: Issue| issue_v(x)) =~~= mismatch_warnings(
            Some(contract_v(*c).id),
            mismatch_message_batch(contract_v(*c).id, expected_path_v(dir@, contract_v(*c).id)),
            expected_path_v(dir@, contract_v(*c).id),
            id_file_present,
        ));
    }
    out
}

/// Load warnings folded into a validation as informational issues.
pub open spec fn load_warning_issues(ws: Seq<Seq<char>>) -> Seq<IssueV> {
    ws.map_values(
        |w: Seq<char>|
            IssueV { kind: IssueKind::LoadWarning, contract_id: None, message: w, file: None },
    )
}

/// Folds load warnings into informational issues.
pub fn build_load_warning_issues(ws: &Vec<String>) -> (r: Vec<Issue>)
    ensures
        r@.map_values(|x: Issue| issue_v(x)) == load_warning_issues(strs_view(ws@)),
{
    let mut out: Vec<Issue> = Vec::new();
    let mut i: usize = 0;
    while i < ws.len()
        invariant
            i <= ws@.len(),
            out@.map_values(|x: Issue| issue_v(x)) =~= load_warning_issues(
                strs_view(ws@).take(i as int),
            ),
        decreases ws@.len() - i,
    {
        let issue = Issue {
            kind: IssueKind::LoadWarning,
            contract_id: None,
            message: ws[i].clone(),
            file: None,
        };
        let ghost prev = out@;
        out.push(issue);
        proof {
            let f = |x: Issue| issue_v(x);
            assert(out@ =~= prev.push(out@.last()));
            assert(out@.map_values(f) =~= prev.map_values(f).push(issue_v(out@.last())));
            assert(out@.map_values(f) =~= load_warning_issues(strs_view(ws@).take(i + 1)));
        }
        i = i + 1;
    }
    proof {
        assert(strs_view(ws@).take(strs_view(ws@).len() as int) =~= strs_view(ws@));
    }
    out
}

/// A full validation outcome.
pub struct ValidationReport {
    pub pass: bool,
    pub errors: Vec<Issue>,
    pub warnings: Vec<Issue>,
}

/// Seals a validation: it passes exactly when the error list is empty;
/// warnings never affect the outcome.
pub fn seal_report(errors: Vec<Issue>, warnings: Vec<Issue>) -> (r: ValidationReport)
    ensures
        r.pass == (r.errors@.len() == 0),
        r.errors@ == errors@,
        r.warnings@ == warnings@,
{
    let pass = errors.len() == 0;
    ValidationReport { pass, errors, warnings }
}

} // verus!
