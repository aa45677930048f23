//! The affected-contracts computation: candidate paths are normalized once,
//! every loaded contract is matched, and a contract with neither a direct
//! nor a glob match is excluded from the result entirely.
use vstd::prelude::*;

use crate::listing::{Summary, SummaryV, summary_v, summary_of, summarize};
use crate::matcher::{MatchOutcome, PatternMatches, pm_v, match_contract, direct_v, glob_groups,
    glob_warnings};
use crate::model::{Contract, ContractV, contract_v, all_files_v, patterns_v, strs_view,
    lemma_strs_view_push};
use crate::text::{normalized, normalize_separators};

verus! {

/// Views of candidate paths after separator normalization.
pub open spec fn norm_files(files: Seq<Seq<char>>) -> Seq<Seq<char>> {
    files.map_values(|f: Seq<char>| normalized(f))
}

/// Normalizes every candidate path: backslashes become forward slashes
/// before any comparison.
pub fn normalize_files(files: &Vec<String>) -> (r: Vec<String>)
    ensures
        strs_view(r@) == norm_files(strs_view(files@)),
{
    let mut out: Vec<String> = Vec::new();
    let mut i: usize = 0;
    while i < files.len()
        invariant
            i <= files@.len(),
            strs_view(out@) =~= norm_files(strs_view(files@)).take(i as int),
        decreases files@.len() - i,
    {
        let n = normalize_separators(files[i].as_str());
        let ghost prev = out@;
        out.push(n);
        proof {
            lemma_strs_view_push(prev, out@.last());
            assert(out@.last()@ == norm_files(strs_view(files@))[i as int]);
            assert(strs_view(out@) =~= norm_files(strs_view(files@)).take(i + 1));
        }
        i = i + 1;
    }
    proof {
        assert(norm_files(strs_view(files@)).take(strs_view(files@).len() as int) =~= norm_files(
            strs_view(files@),
        ));
    }
    out
}

/// One affected contract: its summary and how it matched.
pub struct AffectedEntry {
    pub summary: Summary,
    pub matched: MatchOutcome,
}

/// Model of an affected entry: the summary, the direct matches, and the
/// pattern match groups.
pub open spec fn affected_entry_v(a: AffectedEntry) -> (
    SummaryV,
    Seq<Seq<char>>,
    Seq<(Seq<char>, Seq<Seq<char>>)>,
) {
    (
        summary_v(a.summary),
        strs_view(a.matched.direct@),
        a.matched.applies_to@.map_values(|p: PatternMatches| pm_v(p)),
    )
}

/// A contract is affected exactly when a candidate matched it directly or
/// through one of its valid patterns.
pub open spec fn is_affected_v(cv: ContractV, files: Seq<Seq<char>>) -> bool {
    direct_v(all_files_v(cv), files).len() > 0 || glob_groups(patterns_v(cv), files).len() > 0
}

/// The affected entries, in load order: unaffected contracts contribute
/// nothing.
pub open spec fn affected_v(cs: Seq<ContractV>, files: Seq<Seq<char>>) -> Seq<
    (SummaryV, Seq<Seq<char>>, Seq<(Seq<char>, Seq<Seq<char>>)>),
>
    decreases cs,
{
    if cs.len() == 0 {
        Seq::empty()
    } else {
        affected_v(cs.drop_last(), files) + if is_affected_v(cs.last(), files) {
            seq![
                (
                    summary_of(cs.last()),
                    direct_v(all_files_v(cs.last()), files),
                    glob_groups(patterns_v(cs.last()), files),
                ),
            ]
        } else {
            Seq::empty()
        }
    }
}

/// The pattern warnings of every contract, in load order, affected or not.
pub open spec fn affected_warnings_v(cs: Seq<ContractV>) -> Seq<Seq<char>>
    decreases cs,
{
    if cs.len() == 0 {
        Seq::empty()
    } else {
        affected_warnings_v(cs.drop_last()) + glob_warnings(cs.last().id, patterns_v(cs.last()))
    }
}

/// Matches every loaded contract against the normalized candidates: each
/// affected contract yields its summary with its matches; a contract with
/// neither a direct nor a glob match is excluded entirely; every invalid
/// declared pattern yields its warning whether or not its contract
/// matched.
pub fn affected_contracts(contracts: &Vec<Contract>, files: &Vec<String>) -> (r: (
    Vec<AffectedEntry>,
    Vec<String>,
))
    ensures
        r.0@.map_values(|a: AffectedEntry| affected_entry_v(a)) == affected_v(
            contracts@.map_values(|c: Contract| contract_v(c)),
            norm_files(strs_view(files@)),
        ),
        strs_view(r.1@) == affected_warnings_v(contracts@.map_values(|c: Contract| contract_v(c))),
{
    let ghost cs = contracts@.map_values(|c: Contract| contract_v(c));
    let normed = normalize_files(files);
    let ghost fl = norm_files(strs_view(files@));
    let mut entries: Vec<AffectedEntry> = Vec::new();
    let mut warnings: Vec<String> = Vec::new();
    let mut i: usize = 0;
    while i < contracts.len()
        invariant
            i <= contracts@.len(),
            cs == contracts@.map_values(|c: Contract| contract_v(c)),
            cs.len() == contracts@.len(),
            fl == norm_files(strs_view(files@)),
            strs_view(normed@) == fl,
            entries@.map_values(|a: AffectedEntry| affected_entry_v(a)) =~= affected_v(
                cs.take(i as int),
                fl,
            ),
            strs_view(warnings@) =~= affected_warnings_v(cs.take(i as int)),
        decreases contracts@.len() - i,
    {
        proof {
            assert(cs.take(i + 1).drop_last() =~= cs.take(i as int));
            assert(cs.take(i + 1).last() == cs[i as int]);
            assert(cs[i as int] == contract_v(contracts@[i as int]));
        }
        let outcome = match_contract(&contracts[i], &normed);
        let ghost prevw = strs_view(warnings@);
        let mut ws = outcome.warnings;
        let outcome = MatchOutcome {
            direct: outcome.direct,
            applies_to: outcome.applies_to,
            warnings: Vec::new(),
        };
        let ghost wsv = strs_view(ws@);
        let ghost wsq = ws@;
        let ghost wbefore = warnings@;
        warnings.append(&mut ws);
        proof {
            assert(warnings@ =~= wbefore + wsq);
            assert forall|t: int| 0 <= t < warnings@.len() implies strs_view(warnings@)[t] == (
            prevw + wsv)[t] by {
                if t < wbefore.len() {
                    assert(warnings@[t] == wbefore[t]);
                    assert(strs_view(wbefore)[t] == wbefore[t]@);
                } else {
                    assert(warnings@[t] == wsq[t - wbefore.len()]);
                    assert(wsv[t - wbefore.len()] == wsq[t - wbefore.len()]@);
                }
            }
            assert(strs_view(warnings@) =~= prevw + wsv);
            assert(strs_view(warnings@) =~= affected_warnings_v(cs.take(i + 1)));
        }
        if outcome.direct.len() > 0 || outcome.applies_to.len() > 0 {
            let summary = summarize(&contracts[i]);
            let ghost preve = entries@;
            entries.push(AffectedEntry { summary, matched: outcome });
            proof {
                let f = |a: AffectedEntry| affected_entry_v(a);
                assert(entries@ =~= preve.push(entries@.last()));
                assert(entries@.map_values(f) =~= preve.map_values(f).push(
                    affected_entry_v(entries@.last()),
                ));
                assert(is_affected_v(cs[i as int], fl));
                assert(affected_entry_v(entries@.last()) =~~= (
                    summary_of(cs[i as int]),
                    direct_v(all_files_v(cs[i as int]), fl),
                    glob_groups(patterns_v(cs[i as int]), fl),
                ));
                assert(entries@.map_values(f) =~= affected_v(cs.take(i + 1), fl));
            }
        } else {
            proof {
                assert(!is_affected_v(cs[i as int], fl));
                assert(entries@.map_values(|a: AffectedEntry| affected_entry_v(a)) =~= affected_v(
                    cs.take(i + 1),
                    fl,
                ));
            }
        }
        i = i + 1;
    }
    proof {
        assert(cs.take(cs.len() as int) =~= cs);
    }
    (entries, warnings)
}

/// The union of direct and glob matches a changeset review reports: the
/// direct matches first, then, group by group, each matched path not yet
/// present, appended in candidate order.
pub open spec fn add_unseen(acc: Seq<Seq<char>>, more: Seq<Seq<char>>) -> Seq<Seq<char>>
    decreases more,
{
    if more.len() == 0 {
        acc
    } else {
        let front = add_unseen(acc, more.drop_last());
        if front.contains(more.last()) {
            front
        } else {
            front.push(more.last())
        }
    }
}

/// The matched-path union over the pattern groups.
pub open spec fn union_groups(
    acc: Seq<Seq<char>>,
    groups: Seq<(Seq<char>, Seq<Seq<char>>)>,
) -> Seq<Seq<char>>
    decreases groups,
{
    if groups.len() == 0 {
        acc
    } else {
        add_unseen(union_groups(acc, groups.drop_last()), groups.last().1)
    }
}

/// Appends the paths of `more` not yet present in `acc`, in order.
fn push_unseen(acc: &mut Vec<String>, more: &Vec<String>)
    ensures
        strs_view(final(acc)@) == add_unseen(strs_view(old(acc)@), strs_view(more@)),
{
    let ghost m = strs_view(more@);
    let mut i: usize = 0;
    while i < more.len()
        invariant
            i <= more@.len(),
            m == strs_view(more@),
            m.len() == more@.len(),
            strs_view(acc@) =~= add_unseen(strs_view(old(acc)@), m.take(i as int)),
        decreases more@.len() - i,
    {
        proof {
            assert(m.take(i + 1).drop_last() =~= m.take(i as int));
            assert(m.take(i + 1).last() == m[i as int]);
            assert(m[i as int] == more@[i as int]@);
        }
        let seen = crate::listing::strs_contain(acc, &more[i]);
        if !seen {
            let ghost prev = acc@;
            acc.push(more[i].clone());
            proof {
                lemma_strs_view_push(prev, acc@.last());
                assert(strs_view(acc@) =~= add_unseen(strs_view(old(acc)@), m.take(i + 1)));
            }
        } else {
            proof {
                assert(strs_view(acc@) =~= add_unseen(strs_view(old(acc)@), m.take(i + 1)));
            }
        }
        i = i + 1;
    }
    proof {
        assert(m.take(m.len() as int) =~= m);
    }
}

/// The paths a changeset review reports for one contract: its direct
/// matches, then every glob-matched path not already present.
pub fn combined_matches(outcome: &MatchOutcome) -> (r: Vec<String>)
    ensures
        strs_view(r@) == union_groups(
            strs_view(outcome.direct@),
            outcome.applies_to@.map_values(|p: PatternMatches| pm_v(p)),
        ),
{
    let ghost gs = outcome.applies_to@.map_values(|p: PatternMatches| pm_v(p));
    let mut acc = crate::model::clone_strings(&outcome.direct);
    let mut k: usize = 0;
    while k < outcome.applies_to.len()
        invariant
            k <= outcome.applies_to@.len(),
            gs == outcome.applies_to@.map_values(|p: PatternMatches| pm_v(p)),
            gs.len() == outcome.applies_to@.len(),
            strs_view(acc@) =~= union_groups(strs_view(outcome.direct@), gs.take(k as int)),
        decreases outcome.applies_to@.len() - k,
    {
        proof {
            assert(gs.take(k + 1).drop_last() =~= gs.take(k as int));
            assert(gs.take(k + 1).last() == gs[k as int]);
            assert(gs[k as int] == pm_v(outcome.applies_to@[k as int]));
        }
        push_unseen(&mut acc, &outcome.applies_to[k].matched_files);
        proof {
            assert(strs_view(acc@) =~= union_groups(strs_view(outcome.direct@), gs.take(k + 1)));
        }
        k = k + 1;
    }
    proof {
        assert(gs.take(gs.len() as int) =~= gs);
    }
    acc
}

} // verus!
