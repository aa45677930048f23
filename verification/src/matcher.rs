//! Matching contracts against candidate file paths: exact membership in the
//! declared file list, plus the declared glob patterns, compiled one by one;
//! a pattern that is too long to compile safely, or that does not compile,
//! becomes a warning and is skipped without aborting the rest.
use vstd::prelude::*;

use crate::json::str_eq;
use crate::model::{Contract, contract_v, all_files_v, patterns_v, strs_view,
    lemma_strs_view_push};

verus! {

/// The longest declared pattern the matcher will hand to the glob
/// compiler. globset compiles a glob under a fixed automaton size limit and
/// aborts (its internal expect) on a glob whose automaton exceeds it; a
/// pattern of this length stays orders of magnitude below that limit, so
/// compiling it cannot abort. Longer declared patterns become warnings and
/// are never compiled.
pub const MAX_PATTERN_LEN: usize = 2048;

/// The pattern is short enough to hand to the glob compiler.
pub open spec fn pattern_fits(pattern: Seq<char>) -> bool {
    pattern.len() <= MAX_PATTERN_LEN
}

/// Whether this pattern is a valid glob. The three named results assume one
/// fixed build target: globset's backslash-escape default and its candidate
/// normalization differ on Windows, so for texts holding a backslash the
/// results are functions of the texts only within one build.
pub uninterp spec fn glob_ok(pattern: Seq<char>) -> bool;

/// The error text reported for an invalid glob pattern.
pub uninterp spec fn glob_err(pattern: Seq<char>) -> Seq<char>;

/// Whether a valid glob pattern matches a path.
pub uninterp spec fn glob_match(pattern: Seq<char>, path: Seq<char>) -> bool;

/// Relies on globset::Glob::new: whether a pattern parses, and the error
/// text when it does not, are functions of the pattern text alone (within
/// one build target; see `glob_ok`); the lone pattern `**` always parses
/// (globset reads it as its recursive-prefix token). `Glob::new` only
/// parses and never compiles, so no size bound is needed here.
#[verifier::external_body]
fn glob_compile_error(pattern: &str) -> (r: Option<String>)
    ensures
        r is None <==> glob_ok(pattern@),
        r matches Some(e) ==> e@ == glob_err(pattern@),
        pattern@ == seq!['*', '*'] ==> r is None,
{
    match globset::Glob::new(pattern) {
        Ok(_) => None,
        Err(e) => Some(e.to_string()),
    }
}

/// Relies on globset::Glob::new, Glob::compile_matcher and
/// GlobMatcher::is_match: whether a pattern matches a path is a function of
/// the two texts alone (within one build target; see `glob_ok`), and the
/// glob consisting of the lone token `**` matches every path (globset
/// compiles it to the match-all matcher, with dot matching newlines). The
/// length bound keeps the compiled automaton far below globset's fixed
/// size limit, behind which `compile_matcher` would abort.
#[verifier::external_body]
fn glob_match_path(pattern: &str, path: &str) -> (r: Option<bool>)
    requires
        pattern_fits(pattern@),
    ensures
        r is Some <==> glob_ok(pattern@),
        r matches Some(b) ==> b == glob_match(pattern@, path@),
        pattern@ == seq!['*', '*'] && r is Some ==> r == Some(true),
{
    match globset::Glob::new(pattern) {
        Ok(g) => Some(g.compile_matcher().is_match(path)),
        Err(_) => None,
    }
}

/// The warning recorded for a declared pattern too long to compile safely.
pub open spec fn overlong_pattern_warning(id: Seq<char>, pattern: Seq<char>) -> Seq<char> {
    "Contract '"@ + id + "': applies_to pattern longer than 2048 characters: '"@ + pattern
        + "'"@
}

/// The warning recorded for an invalid declared pattern.
pub open spec fn invalid_pattern_warning(id: Seq<char>, pattern: Seq<char>, err: Seq<char>) -> Seq<
    char,
> {
    "Contract '"@ + id + "': invalid applies_to pattern '"@ + pattern + "': "@ + err
}

/// The candidate paths found verbatim in the declared file list, in input
/// order: exact string equality, nothing less.
pub open spec fn direct_v(all: Seq<Seq<char>>, files: Seq<Seq<char>>) -> Seq<Seq<char>>
    decreases files,
{
    if files.len() == 0 {
        Seq::empty()
    } else {
        direct_v(all, files.drop_last()) + if all.contains(files.last()) {
            seq![files.last()]
        } else {
            Seq::empty()
        }
    }
}

/// The candidate paths a valid pattern matches, in input order.
pub open spec fn matched_for(pattern: Seq<char>, files: Seq<Seq<char>>) -> Seq<Seq<char>>
    decreases files,
{
    if files.len() == 0 {
        Seq::empty()
    } else {
        matched_for(pattern, files.drop_last()) + if glob_match(pattern, files.last()) {
            seq![files.last()]
        } else {
            Seq::empty()
        }
    }
}

/// The non-empty pattern match groups, in pattern order: overlong and
/// invalid patterns and patterns without matches contribute nothing.
pub open spec fn glob_groups(ps: Seq<Seq<char>>, files: Seq<Seq<char>>) -> Seq<
    (Seq<char>, Seq<Seq<char>>),
>
    decreases ps,
{
    if ps.len() == 0 {
        Seq::empty()
    } else {
        glob_groups(ps.drop_last(), files) + if pattern_fits(ps.last()) && glob_ok(ps.last())
            && matched_for(ps.last(), files).len() > 0 {
            seq![(ps.last(), matched_for(ps.last(), files))]
        } else {
            Seq::empty()
        }
    }
}

/// The warnings of a pattern list: one per overlong or invalid pattern, in
/// order.
pub open spec fn glob_warnings(id: Seq<char>, ps: Seq<Seq<char>>) -> Seq<Seq<char>>
    decreases ps,
{
    if ps.len() == 0 {
        Seq::empty()
    } else {
        glob_warnings(id, ps.drop_last()) + if !pattern_fits(ps.last()) {
            seq![overlong_pattern_warning(id, ps.last())]
        } else if glob_ok(ps.last()) {
            Seq::empty()
        } else {
            seq![invalid_pattern_warning(id, ps.last(), glob_err(ps.last()))]
        }
    }
}

/// One pattern's matches among the candidate paths.
pub struct PatternMatches {
    pub pattern: String,
    pub matched_files: Vec<String>,
}

/// Model of a pattern match group.
pub open spec fn pm_v(p: PatternMatches) -> (Seq<char>, Seq<Seq<char>>) {
    (p.pattern@, strs_view(p.matched_files@))
}

/// How one contract relates to the candidate paths.
pub struct MatchOutcome {
    pub direct: Vec<String>,
    pub applies_to: Vec<PatternMatches>,
    pub warnings: Vec<String>,
}

/// A candidate is a direct match exactly when it is a candidate and is
/// declared verbatim: a strict prefix of a declared path never matches.
pub proof fn lemma_direct_membership(all: Seq<Seq<char>>, files: Seq<Seq<char>>, f: Seq<char>)
    ensures
        direct_v(all, files).contains(f) <==> (files.contains(f) && all.contains(f)),
    decreases files,
{
    if files.len() > 0 {
        lemma_direct_membership(all, files.drop_last(), f);
        if direct_v(all, files).contains(f) {
            let i = choose|i: int|
                0 <= i < direct_v(all, files).len() && direct_v(all, files)[i] == f;
            if i < direct_v(all, files.drop_last()).len() {
                assert(direct_v(all, files.drop_last()).contains(f));
                assert(files.drop_last().contains(f));
                let k = choose|k: int|
                    0 <= k < files.drop_last().len() && files.drop_last()[k] == f;
                assert(files[k] == f);
            } else {
                assert(f == files.last());
                assert(files.contains(f)) by {
                    assert(files[files.len() - 1] == f);
                }
            }
        }
        if files.contains(f) && all.contains(f) {
            let k = choose|k: int| 0 <= k < files.len() && files[k] == f;
            if k < files.len() - 1 {
                assert(files.drop_last()[k] == f);
                assert(files.drop_last().contains(f));
                assert(direct_v(all, files.drop_last()).contains(f));
                let i = choose|i: int|
                    0 <= i < direct_v(all, files.drop_last()).len() && direct_v(
                        all,
                        files.drop_last(),
                    )[i] == f;
                assert(direct_v(all, files)[i] == f);
            } else {
                assert(files.last() == f);
                let d = direct_v(all, files);
                assert(d[d.len() - 1] == f);
            }
        }
    }
}

/// When a pattern matches every candidate, its match list is the whole
/// candidate list.
pub proof fn lemma_matched_all(pattern: Seq<char>, files: Seq<Seq<char>>)
    requires
        forall|i: int| 0 <= i < files.len() ==> glob_match(pattern, #[trigger] files[i]),
    ensures
        matched_for(pattern, files) == files,
    decreases files,
{
    if files.len() > 0 {
        lemma_matched_all(pattern, files.drop_last());
        assert(matched_for(pattern, files) =~= files);
    }
}

/// A valid pattern of admissible length with at least one match owns
/// exactly one group, holding its full match list.
pub proof fn lemma_pattern_group(ps: Seq<Seq<char>>, files: Seq<Seq<char>>, i: int)
    requires
        0 <= i < ps.len(),
        pattern_fits(ps[i]),
        glob_ok(ps[i]),
        matched_for(ps[i], files).len() > 0,
    ensures
        glob_groups(ps, files).contains((ps[i], matched_for(ps[i], files))),
    decreases ps,
{
    if i == ps.len() - 1 {
        let g = glob_groups(ps, files);
        assert(g[g.len() - 1] == (ps[i], matched_for(ps[i], files)));
    } else {
        lemma_pattern_group(ps.drop_last(), files, i);
        assert(ps.drop_last()[i] == ps[i]);
        let gd = glob_groups(ps.drop_last(), files);
        let k = choose|k: int| 0 <= k < gd.len() && gd[k] == (ps[i], matched_for(ps[i], files));
        assert(glob_groups(ps, files)[k] == (ps[i], matched_for(ps[i], files)));
    }
}

/// Is this candidate declared verbatim?
fn file_declared(all: &Vec<String>, f: &String) -> (r: bool)
    ensures
        r == strs_view(all@).contains(f@),
{
    let mut i: usize = 0;
    while i < all.len()
        invariant
            i <= all@.len(),
            forall|j: int| 0 <= j < i ==> strs_view(all@)[j] != f@,
        decreases all@.len() - i,
    {
        if str_eq(all[i].as_str(), f.as_str()) {
            proof {
                assert(strs_view(all@)[i as int] == f@);
            }
            return true;
        }
        i = i + 1;
    }
    proof {
        if strs_view(all@).contains(f@) {
            let k = choose|k: int| 0 <= k < strs_view(all@).len() && strs_view(all@)[k] == f@;
            assert(false);
        }
    }
    false
}

/// Matches one contract against normalized candidate paths: exact membership
/// against the declared files, then each declared glob pattern in turn; a
/// pattern too long to compile safely, or an invalid one, becomes one
/// warning and the rest still run; the lone pattern `**` matches every
/// candidate.
pub fn match_contract(c: &Contract, files: &Vec<String>) -> (r: MatchOutcome)
    ensures
        strs_view(r.direct@) == direct_v(all_files_v(contract_v(*c)), strs_view(files@)),
        r.applies_to@.map_values(|p: PatternMatches| pm_v(p)) == glob_groups(
            patterns_v(contract_v(*c)),
            strs_view(files@),
        ),
        strs_view(r.warnings@) == glob_warnings(contract_v(*c).id, patterns_v(contract_v(*c))),
        forall|i: int|
            0 <= i < patterns_v(contract_v(*c)).len() && patterns_v(contract_v(*c))[i] == seq![
                '*',
                '*',
            ] ==> glob_ok(seq!['*', '*']) && matched_for(seq!['*', '*'], strs_view(files@))
                == strs_view(files@),
{
    let ghost cv = contract_v(*c);
    let ghost fl = strs_view(files@);
    let all = c.all_files();
    let mut direct: Vec<String> = Vec::new();
    let mut i: usize = 0;
    while i < files.len()
        invariant
            i <= files@.len(),
            fl == strs_view(files@),
            fl.len() == files@.len(),
            strs_view(all@) == all_files_v(cv),
            strs_view(direct@) =~= direct_v(all_files_v(cv), fl.take(i as int)),
        decreases files@.len() - i,
    {
        proof {
            assert(fl[i as int] == files@[i as int]@);
            assert(fl.take(i + 1).drop_last() =~= fl.take(i as int));
            assert(fl.take(i + 1).last() == fl[i as int]);
        }
        if file_declared(&all, &files[i]) {
            let ghost prev = direct@;
            direct.push(files[i].clone());
            proof {
                lemma_strs_view_push(prev, files@[i as int]);
                assert(strs_view(direct@) =~= direct_v(all_files_v(cv), fl.take(i + 1)));
            }
        } else {
            proof {
                assert(strs_view(direct@) =~= direct_v(all_files_v(cv), fl.take(i + 1)));
            }
        }
        i = i + 1;
    }
    proof {
        assert(fl.take(fl.len() as int) =~= fl);
    }
    let patterns = c.applies_to_patterns();
    let ghost ps = patterns_v(cv);
    let mut groups: Vec<PatternMatches> = Vec::new();
    let mut warnings: Vec<String> = Vec::new();
    let mut k: usize = 0;
    while k < patterns.len()
        invariant
            k <= patterns@.len(),
            cv == contract_v(*c),
            fl == strs_view(files@),
            fl.len() == files@.len(),
            ps == patterns_v(cv),
            strs_view(patterns@) == ps,
            ps.len() == patterns@.len(),
            groups@.map_values(|p: PatternMatches| pm_v(p)) =~= glob_groups(
                ps.take(k as int),
                fl,
            ),
            strs_view(warnings@) =~= glob_warnings(cv.id, ps.take(k as int)),
            forall|t: int|
                0 <= t < k && ps[t] == seq!['*', '*'] ==> glob_ok(seq!['*', '*']) && matched_for(
                    seq!['*', '*'],
                    fl,
                ) == fl,
        decreases patterns@.len() - k,
    {
        proof {
            assert(ps[k as int] == patterns@[k as int]@);
            assert(ps.take(k + 1).drop_last() =~= ps.take(k as int));
            assert(ps.take(k + 1).last() == ps[k as int]);
        }
        if patterns[k].as_str().unicode_len() > MAX_PATTERN_LEN {
            let mut w = String::from_str("Contract '");
            w.append(c.id.as_str());
            w.append("': applies_to pattern longer than 2048 characters: '");
            w.append(patterns[k].as_str());
            w.append("'");
            let ghost prevw = warnings@;
            warnings.push(w);
            proof {
                lemma_strs_view_push(prevw, warnings@.last());
                assert(warnings@.last()@ =~= overlong_pattern_warning(cv.id, ps[k as int]));
                assert(strs_view(warnings@) =~= glob_warnings(cv.id, ps.take(k + 1)));
                assert(groups@.map_values(|p: PatternMatches| pm_v(p)) =~= glob_groups(
                    ps.take(k + 1),
                    fl,
                ));
            }
            k = k + 1;
            continue ;
        }
        match glob_compile_error(patterns[k].as_str()) {
            Some(err) => {
                let mut w = String::from_str("Contract '");
                w.append(c.id.as_str());
                w.append("': invalid applies_to pattern '");
                w.append(patterns[k].as_str());
                w.append("': ");
                w.append(err.as_str());
                let ghost prevw = warnings@;
                warnings.push(w);
                proof {
                    lemma_strs_view_push(prevw, warnings@.last());
                    assert(warnings@.last()@ =~= invalid_pattern_warning(
                        cv.id,
                        ps[k as int],
                        glob_err(ps[k as int]),
                    ));
                    assert(strs_view(warnings@) =~= glob_warnings(cv.id, ps.take(k + 1)));
                    assert(groups@.map_values(|p: PatternMatches| pm_v(p)) =~= glob_groups(
                        ps.take(k + 1),
                        fl,
                    ));
                }
            },
            None => {
                let mut matched: Vec<String> = Vec::new();
                let mut t: usize = 0;
                while t < files.len()
                    invariant
                        t <= files@.len(),
                        fl == strs_view(files@),
                        fl.len() == files@.len(),
                        k < patterns@.len(),
                        ps[k as int] == patterns@[k as int]@,
                        pattern_fits(ps[k as int]),
                        glob_ok(ps[k as int]),
                        strs_view(matched@) =~= matched_for(ps[k as int], fl.take(t as int)),
                        patterns@[k as int]@ == seq!['*', '*'] ==> forall|u: int|
                            0 <= u < t ==> glob_match(seq!['*', '*'], #[trigger] fl[u]),
                    decreases files@.len() - t,
                {
                    proof {
                        assert(fl[t as int] == files@[t as int]@);
                        assert(fl.take(t + 1).drop_last() =~= fl.take(t as int));
                        assert(fl.take(t + 1).last() == fl[t as int]);
                    }
                    let hit = match glob_match_path(patterns[k].as_str(), files[t].as_str()) {
                        Some(b) => b,
                        None => false,
                    };
                    if hit {
                        let ghost prevm = matched@;
                        matched.push(files[t].clone());
                        proof {
                            lemma_strs_view_push(prevm, matched@.last());
                            assert(strs_view(matched@) =~= matched_for(
                                ps[k as int],
                                fl.take(t + 1),
                            ));
                        }
                    } else {
                        proof {
                            assert(strs_view(matched@) =~= matched_for(
                                ps[k as int],
                                fl.take(t + 1),
                            ));
                        }
                    }
                    t = t + 1;
                }
                proof {
                    assert(fl.take(fl.len() as int) =~= fl);
                }
                if matched.len() > 0 {
                    let ghost prevg = groups@;
                    groups.push(
                        PatternMatches { pattern: patterns[k].clone(), matched_files: matched },
                    );
                    proof {
                        let gf = |p: PatternMatches| pm_v(p);
                        assert(groups@ =~= prevg.push(groups@.last()));
                        assert(groups@.map_values(gf) =~= prevg.map_values(gf).push(
                            pm_v(groups@.last()),
                        ));
                        assert(pm_v(groups@.last()) == (ps[k as int], matched_for(
                            ps[k as int],
                            fl,
                        )));
                        assert(groups@.map_values(gf) =~= glob_groups(ps.take(k + 1), fl));
                        assert(strs_view(warnings@) =~= glob_warnings(cv.id, ps.take(k + 1)));
                    }
                } else {
                    proof {
                        assert(groups@.map_values(|p: PatternMatches| pm_v(p)) =~= glob_groups(
                            ps.take(k + 1),
                            fl,
                        ));
                        assert(strs_view(warnings@) =~= glob_warnings(cv.id, ps.take(k + 1)));
                    }
                }
                proof {
                    if ps[k as int] == seq!['*', '*'] {
                        lemma_matched_all(seq!['*', '*'], fl);
                    }
                }
            },
        }
        k = k + 1;
    }
    proof {
        assert(ps.take(ps.len() as int) =~= ps);
    }
    MatchOutcome { direct, applies_to: groups, warnings }
}

} // verus!
