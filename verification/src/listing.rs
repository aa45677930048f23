//! Listing loaded contracts: summary rows, the optional domain filter
//! (exact, case-sensitive) and the optional tag filter (OR across the given
//! tags), both of which must hold when both are given, and the
//! missing-file warnings reported alongside a listing.
use vstd::prelude::*;

use crate::json::str_eq;
use crate::model::{Contract, ContractV, Priority, Status, contract_v, all_files_v, opt_str_v,
    opt_strs_v, opt_files_seq, strs_view, clone_opt_string, clone_opt_strings,
    lemma_strs_view_push};

verus! {

/// One row of a listing: the summary form of a contract.
pub struct Summary {
    pub id: String,
    pub version: String,
    pub name: String,
    pub description: String,
    pub priority: Priority,
    pub status: Status,
    pub domain: Option<String>,
    pub tags: Option<Vec<String>>,
    pub trigger_type: Option<String>,
    pub file_count: usize,
}

/// Model of a summary row.
#[verifier::ext_equal]
pub struct SummaryV {
    pub id: Seq<char>,
    pub version: Seq<char>,
    pub name: Seq<char>,
    pub description: Seq<char>,
    pub priority: Priority,
    pub status: Status,
    pub domain: Option<Seq<char>>,
    pub tags: Option<Seq<Seq<char>>>,
    pub trigger_type: Option<Seq<char>>,
    pub file_count: int,
}

/// The model of a summary row value.
pub open spec fn summary_v(s: Summary) -> SummaryV {
    SummaryV {
        id: s.id@,
        version: s.version@,
        name: s.name@,
        description: s.description@,
        priority: s.priority,
        status: s.status,
        domain: opt_str_v(s.domain),
        tags: opt_strs_v(s.tags),
        trigger_type: opt_str_v(s.trigger_type),
        file_count: s.file_count as int,
    }
}

/// The summary a contract presents.
pub open spec fn summary_of(cv: ContractV) -> SummaryV {
    SummaryV {
        id: cv.id,
        version: cv.version,
        name: cv.name,
        description: cv.description,
        priority: cv.priority,
        status: cv.status,
        domain: cv.domain,
        tags: cv.tags,
        trigger_type: match cv.trigger {
            Some(t) => t.kind,
            None => None,
        },
        file_count: all_files_v(cv).len() as int,
    }
}

/// The domain filter: absent keeps everything, present demands exact,
/// case-sensitive equality with the contract's domain.
pub open spec fn domain_keep(cd: Option<Seq<char>>, f: Option<Seq<char>>) -> bool {
    match f {
        None => true,
        Some(d) => cd == Some(d),
    }
}

/// The contract's tags contain at least one of the filter tags: an OR
/// across the filter tags.
pub open spec fn has_any_tag(ct: Seq<Seq<char>>, ts: Seq<Seq<char>>) -> bool
    decreases ts,
{
    if ts.len() == 0 {
        false
    } else {
        has_any_tag(ct, ts.drop_last()) || ct.contains(ts.last())
    }
}

/// A match in any prefix is a match in the whole list.
pub proof fn lemma_has_any_prefix(ct: Seq<Seq<char>>, ts: Seq<Seq<char>>, k: int)
    requires
        0 <= k <= ts.len(),
        has_any_tag(ct, ts.take(k)),
    ensures
        has_any_tag(ct, ts),
    decreases ts.len() - k,
{
    if k < ts.len() {
        assert(ts.take(k + 1).drop_last() =~= ts.take(k));
        lemma_has_any_prefix(ct, ts, k + 1);
    } else {
        assert(ts.take(k) =~= ts);
    }
}

/// The tag filter: absent keeps everything, present keeps a contract that
/// carries at least one of the given tags (OR across the filter tags).
pub open spec fn tags_keep(ct: Option<Seq<Seq<char>>>, f: Option<Seq<Seq<char>>>) -> bool {
    match f {
        None => true,
        Some(ts) => has_any_tag(opt_files_seq(ct), ts),
    }
}

/// A contract stays in the listing when both filters hold.
pub open spec fn keep_v(cv: ContractV, fd: Option<Seq<char>>, ft: Option<Seq<Seq<char>>>) -> bool {
    domain_keep(cv.domain, fd) && tags_keep(cv.tags, ft)
}

/// Does a string list contain this string?
pub fn strs_contain(hay: &Vec<String>, needle: &String) -> (r: bool)
    ensures
        r == strs_view(hay@).contains(needle@),
{
    let mut i: usize = 0;
    while i < hay.len()
        invariant
            i <= hay@.len(),
            forall|j: int| 0 <= j < i ==> strs_view(hay@)[j] != needle@,
        decreases hay@.len() - i,
    {
        if str_eq(hay[i].as_str(), needle.as_str()) {
            proof {
                assert(strs_view(hay@)[i as int] == needle@);
            }
            return true;
        }
        i = i + 1;
    }
    proof {
        if strs_view(hay@).contains(needle@) {
            let k = choose|k: int|
                0 <= k < strs_view(hay@).len() && strs_view(hay@)[k] == needle@;
            assert(false);
        }
    }
    false
}

/// Does the contract carry this tag?
fn contract_has_tag(c: &Contract, tag: &String) -> (r: bool)
    ensures
        r == opt_files_seq(opt_strs_v(c.tags)).contains(tag@),
{
    match &c.tags {
        Some(ct) => {
            proof {
                assert(opt_strs_v(c.tags) == Some(strs_view(ct@)));
            }
            strs_contain(ct, tag)
        },
        None => false,
    }
}

/// Decides whether a contract passes the listing filters.
pub fn keep_contract(c: &Contract, domain: &Option<String>, tags: &Option<Vec<String>>) -> (r:
    bool)
    ensures
        r == keep_v(contract_v(*c), opt_str_v(*domain), opt_strs_v(*tags)),
{
    let dkeep = match domain {
        None => true,
        Some(d) => match &c.domain {
            Some(cd) => str_eq(cd.as_str(), d.as_str()),
            None => false,
        },
    };
    if !dkeep {
        return false;
    }
    proof {
        assert(domain_keep(contract_v(*c).domain, opt_str_v(*domain)));
    }
    match tags {
        None => true,
        Some(ts) => {
            proof {
                assert(opt_strs_v(*tags) == Some(strs_view(ts@)));
            }
            let ghost tsv = strs_view(ts@);
            let ghost ctv = opt_files_seq(opt_strs_v(c.tags));
            let mut i: usize = 0;
            while i < ts.len()
                invariant
                    i <= ts@.len(),
                    domain_keep(contract_v(*c).domain, opt_str_v(*domain)),
                    opt_strs_v(*tags) == Some(strs_view(ts@)),
                    tsv == strs_view(ts@),
                    tsv.len() == ts@.len(),
                    ctv == opt_files_seq(opt_strs_v(c.tags)),
                    !has_any_tag(ctv, tsv.take(i as int)),
                decreases ts@.len() - i,
            {
                proof {
                    assert(tsv.take(i + 1).drop_last() =~= tsv.take(i as int));
                    assert(tsv.take(i + 1).last() == tsv[i as int]);
                    assert(tsv[i as int] == ts@[i as int]@);
                }
                let hit = contract_has_tag(c, &ts[i]);
                if hit {
                    proof {
                        assert(has_any_tag(ctv, tsv.take(i + 1)));
                        lemma_has_any_prefix(ctv, tsv, i + 1);
                        assert(tags_keep(opt_strs_v(c.tags), opt_strs_v(*tags)));
                    }
                    return true;
                }
                proof {
                    assert(!has_any_tag(ctv, tsv.take(i + 1)));
                }
                i = i + 1;
            }
            proof {
                assert(tsv.take(tsv.len() as int) =~= tsv);
                assert(!tags_keep(opt_strs_v(c.tags), opt_strs_v(*tags)));
            }
            false
        },
    }
}

/// Builds the summary row of a contract.
pub fn summarize(c: &Contract) -> (r: Summary)
    ensures
        summary_v(r) == summary_of(contract_v(*c)),
{
    let trigger_type = match &c.trigger {
        Some(t) => clone_opt_string(&t.kind),
        None => None,
    };
    let file_count = c.all_files().len();
    let r = Summary {
        id: c.id.clone(),
        version: c.version.clone(),
        name: c.name.clone(),
        description: c.description.clone(),
        priority: c.priority,
        status: c.status,
        domain: clone_opt_string(&c.domain),
        tags: clone_opt_strings(&c.tags),
        trigger_type,
        file_count,
    };
    proof {
        assert(summary_v(r) =~~= summary_of(contract_v(*c)));
    }
    r
}

/// The missing-file warning a listing reports.
pub open spec fn listing_missing_warning(id: Seq<char>, path: Seq<char>) -> Seq<char> {
    "Contract '"@ + id + "': missing file '"@ + path + "'"@
}

/// The listing warnings for one contract's referenced paths, given which of
/// them exist on disk.
pub open spec fn listing_warnings(id: Seq<char>, paths: Seq<Seq<char>>, present: Seq<bool>) -> Seq<
    Seq<char>,
>
    decreases paths,
{
    if paths.len() == 0 || paths.len() != present.len() {
        Seq::empty()
    } else {
        listing_warnings(id, paths.drop_last(), present.drop_last()) + if present.last() {
            Seq::empty()
        } else {
            seq![listing_missing_warning(id, paths.last())]
        }
    }
}

/// Builds the missing-file warnings of one contract, one per referenced
/// path that does not exist, in declaration order.
pub fn missing_listing_warnings(id: &String, paths: &Vec<String>, present: &Vec<bool>) -> (r: Vec<
    String,
>)
    requires
        paths@.len() == present@.len(),
    ensures
        strs_view(r@) == listing_warnings(id@, strs_view(paths@), present@),
{
    let mut out: Vec<String> = Vec::new();
    let mut i: usize = 0;
    while i < paths.len()
        invariant
            i <= paths@.len(),
            paths@.len() == present@.len(),
            strs_view(out@) =~= listing_warnings(
                id@,
                strs_view(paths@).take(i as int),
                present@.take(i as int),
            ),
        decreases paths@.len() - i,
    {
        proof {
            assert(strs_view(paths@).take(i + 1).drop_last() =~= strs_view(paths@).take(
                i as int,
            ));
            assert(present@.take(i + 1).drop_last() =~= present@.take(i as int));
            assert(strs_view(paths@).take(i + 1).last() == strs_view(paths@)[i as int]);
            assert(present@.take(i + 1).last() == present@[i as int]);
        }
        if !present[i] {
            let mut w = String::from_str("Contract '");
            w.append(id.as_str());
            w.append("': missing file '");
            w.append(paths[i].as_str());
            w.append("'");
            let ghost prev = out@;
            out.push(w);
            proof {
                lemma_strs_view_push(prev, out@.last());
                assert(out@.last()@ =~= listing_missing_warning(id@, strs_view(paths@)[i as int]));
                assert(strs_view(out@) =~= listing_warnings(
                    id@,
                    strs_view(paths@).take(i + 1),
                    present@.take(i + 1),
                ));
            }
        } else {
            proof {
                assert(strs_view(out@) =~= listing_warnings(
                    id@,
                    strs_view(paths@).take(i + 1),
                    present@.take(i + 1),
                ));
            }
        }
        i = i + 1;
    }
    proof {
        assert(strs_view(paths@).take(paths@.len() as int) =~= strs_view(paths@));
        assert(present@.take(present@.len() as int) =~= present@);
    }
    out
}

/// The rows a listing shows: the summaries of the contracts both filters
/// keep, in load order.
pub open spec fn list_v(cs: Seq<ContractV>, fd: Option<Seq<char>>, ft: Option<Seq<Seq<char>>>) -> Seq<
    SummaryV,
>
    decreases cs,
{
    if cs.len() == 0 {
        Seq::empty()
    } else {
        list_v(cs.drop_last(), fd, ft) + if keep_v(cs.last(), fd, ft) {
            seq![summary_of(cs.last())]
        } else {
            Seq::empty()
        }
    }
}

/// Lists the contracts both filters keep, as summary rows, in order.
pub fn list_contracts(contracts: &Vec<Contract>, domain: &Option<String>, tags: &Option<
    Vec<String>,
>) -> (r: Vec<Summary>)
    ensures
        r@.map_values(|s: Summary| summary_v(s)) == list_v(
            contracts@.map_values(|c: Contract| contract_v(c)),
            opt_str_v(*domain),
            opt_strs_v(*tags),
        ),
{
    let ghost cs = contracts@.map_values(|c: Contract| contract_v(c));
    let mut out: Vec<Summary> = Vec::new();
    let mut i: usize = 0;
    while i < contracts.len()
        invariant
            i <= contracts@.len(),
            cs == contracts@.map_values(|c: Contract| contract_v(c)),
            cs.len() == contracts@.len(),
            out@.map_values(|s: Summary| summary_v(s)) =~= list_v(
                cs.take(i as int),
                opt_str_v(*domain),
                opt_strs_v(*tags),
            ),
        decreases contracts@.len() - i,
    {
        proof {
            assert(cs.take(i + 1).drop_last() =~= cs.take(i as int));
            assert(cs.take(i + 1).last() == cs[i as int]);
            assert(cs[i as int] == contract_v(contracts@[i as int]));
        }
        if keep_contract(&contracts[i], domain, tags) {
            let ghost prev = out@;
            out.push(summarize(&contracts[i]));
            proof {
                let sf = |s: Summary| summary_v(s);
                assert(out@ =~= prev.push(out@.last()));
                assert(out@.map_values(sf) =~= prev.map_values(sf).push(summary_v(out@.last())));
                assert(out@.map_values(sf) =~= list_v(
                    cs.take(i + 1),
                    opt_str_v(*domain),
                    opt_strs_v(*tags),
                ));
            }
        } else {
            proof {
                assert(out@.map_values(|s: Summary| summary_v(s)) =~= list_v(
                    cs.take(i + 1),
                    opt_str_v(*domain),
                    opt_strs_v(*tags),
                ));
            }
        }
        i = i + 1;
    }
    proof {
        assert(cs.take(cs.len() as int) =~= cs);
    }
    out
}

} // verus!
