//! Tolerant loading of a set of record files: well-shaped records are
//! collected, every broken file becomes one warning, and the result is
//! sorted by record id so that every consumer sees a deterministic order.
use vstd::prelude::*;

use crate::json::{Json, jv};
use crate::model::{Contract, ContractV, contract_v, strs_view};
use crate::schema::{shape_error, schema_ok, contract_of, contract_from_json};
use crate::text::{has_suffix, chars_le, chars_lt, ends_with_str, str_le, lemma_chars_le_total,
    lemma_chars_le_trans, lemma_chars_le_refl, lemma_chars_lt_asym, lemma_chars_le_antisym};

verus! {

broadcast use vstd::seq_lib::group_to_multiset_ensures;

/// How one candidate file presented itself: parsed content, unparsable
/// content, or unreadable bytes.
pub enum ReadOutcome {
    Parsed(Json),
    ParseError(String),
    ReadError(String),
}

/// One candidate file of a directory scan: its path and what reading it
/// produced.
pub struct RecordSource {
    pub path: String,
    pub outcome: ReadOutcome,
}

/// A path names a record file: it ends in the record-file suffix.
pub open spec fn is_record_path(p: Seq<char>) -> bool {
    has_suffix(p, ".contract.toml"@)
}

/// The warning for a file whose content could not be decoded.
pub open spec fn parse_warning(path: Seq<char>, err: Seq<char>) -> Seq<char> {
    "Failed to parse "@ + path + ": "@ + err
}

/// The warning for a file that could not be read.
pub open spec fn read_warning(path: Seq<char>, err: Seq<char>) -> Seq<char> {
    "Failed to read "@ + path + ": "@ + err
}

/// The warning one candidate file contributes, if any: non-record files
/// contribute nothing, well-shaped record files load silently.
pub open spec fn warning_of(s: RecordSource) -> Option<Seq<char>> {
    if !is_record_path(s.path@) {
        None
    } else {
        match s.outcome {
            ReadOutcome::Parsed(j) => match shape_error(jv(j)) {
                Some(m) => Some(parse_warning(s.path@, m)),
                None => None,
            },
            ReadOutcome::ParseError(e) => Some(parse_warning(s.path@, e@)),
            ReadOutcome::ReadError(e) => Some(read_warning(s.path@, e@)),
        }
    }
}

/// The record one candidate file contributes, if any.
pub open spec fn record_of(s: RecordSource) -> Option<ContractV> {
    if is_record_path(s.path@) {
        match s.outcome {
            ReadOutcome::Parsed(j) => if schema_ok(jv(j)) {
                Some(contract_of(jv(j)))
            } else {
                None
            },
            _ => None,
        }
    } else {
        None
    }
}

/// All warnings of a scan, in scan order.
pub open spec fn load_warnings(ss: Seq<RecordSource>) -> Seq<Seq<char>>
    decreases ss,
{
    if ss.len() == 0 {
        Seq::empty()
    } else {
        load_warnings(ss.drop_last()) + match warning_of(ss.last()) {
            Some(w) => seq![w],
            None => Seq::empty(),
        }
    }
}

/// All records of a scan, in scan order (before sorting).
pub open spec fn parsed_records(ss: Seq<RecordSource>) -> Seq<ContractV>
    decreases ss,
{
    if ss.len() == 0 {
        Seq::empty()
    } else {
        parsed_records(ss.drop_last()) + match record_of(ss.last()) {
            Some(c) => seq![c],
            None => Seq::empty(),
        }
    }
}

/// The record list is sorted by id, ascending, in code-point order.
pub open spec fn sorted_by_id(s: Seq<Contract>) -> bool {
    forall|i: int, j: int| 0 <= i < j < s.len() ==> chars_le(s[i].id@, s[j].id@)
}

/// Mapping a model over a pushed sequence.
proof fn lemma_map_push(s: Seq<Contract>, c: Contract)
    ensures
        s.push(c).map_values(|x: Contract| contract_v(x)) =~= s.map_values(
            |x: Contract| contract_v(x),
        ).push(contract_v(c)),
{
}

/// Mapping a model over a sequence with one element removed.
proof fn lemma_map_remove(s: Seq<Contract>, i: int)
    requires
        0 <= i < s.len(),
    ensures
        s.remove(i).map_values(|x: Contract| contract_v(x)) =~= s.map_values(
            |x: Contract| contract_v(x),
        ).remove(i),
{
}

/// Stable insertion: the record goes after every record whose id is less
/// than or equal to its own, so records with equal ids keep their order.
pub open spec fn insert_stable(s: Seq<ContractV>, c: ContractV) -> Seq<ContractV>
    decreases s,
{
    if s.len() == 0 {
        seq![c]
    } else if chars_lt(c.id, s[0].id) {
        seq![c] + s
    } else {
        seq![s[0]] + insert_stable(s.drop_first(), c)
    }
}

/// The stable sort by id, ascending: records are inserted in scan order,
/// each after all records whose id is less than or equal, so records with
/// equal ids keep their scan order.
pub open spec fn stable_sort(s: Seq<ContractV>) -> Seq<ContractV>
    decreases s,
{
    if s.len() == 0 {
        Seq::empty()
    } else {
        insert_stable(stable_sort(s.drop_last()), s.last())
    }
}

/// Where the stable insertion puts the record: at the first position whose
/// id is strictly greater.
proof fn lemma_insert_stable_at(s: Seq<ContractV>, c: ContractV, pos: int)
    requires
        0 <= pos <= s.len(),
        forall|j: int| 0 <= j < pos ==> !chars_lt(c.id, (#[trigger] s[j]).id),
        pos < s.len() ==> chars_lt(c.id, s[pos].id),
    ensures
        insert_stable(s, c) == s.take(pos) + seq![c] + s.skip(pos),
    decreases s,
{
    if s.len() == 0 {
        assert(insert_stable(s, c) =~= s.take(pos) + seq![c] + s.skip(pos));
    } else if chars_lt(c.id, s[0].id) {
        assert(pos == 0);
        assert(insert_stable(s, c) =~= s.take(0) + seq![c] + s.skip(0));
    } else {
        assert(pos >= 1);
        let sd = s.drop_first();
        assert(forall|j: int| 0 <= j < sd.len() ==> sd[j] == s[j + 1]);
        assert(forall|j: int| 0 <= j < pos - 1 ==> !chars_lt(c.id, (#[trigger] sd[j]).id)) by {
            assert(forall|j: int| 0 <= j < pos - 1 ==> sd[j] == s[j + 1]);
        }
        lemma_insert_stable_at(sd, c, pos - 1);
        assert(insert_stable(s, c) =~= s.take(pos) + seq![c] + s.skip(pos));
    }
}

/// The stable insertion keeps the list sorted and adds exactly the record.
proof fn lemma_insert_stable_ensures(s: Seq<ContractV>, c: ContractV)
    requires
        models_sorted(s),
    ensures
        models_sorted(insert_stable(s, c)),
        insert_stable(s, c).to_multiset() == s.to_multiset().insert(c),
        insert_stable(s, c).len() == s.len() + 1,
    decreases s,
{
    broadcast use vstd::seq_lib::lemma_multiset_commutative;

    if s.len() == 0 {
        assert(seq![c] =~= Seq::<ContractV>::empty().push(c));
        assert(insert_stable(s, c).to_multiset() =~= s.to_multiset().insert(c));
    } else if chars_lt(c.id, s[0].id) {
        lemma_chars_lt_asym(c.id, s[0].id);
        assert forall|i: int, j: int|
            0 <= i < j < insert_stable(s, c).len() implies chars_le(
            (#[trigger] insert_stable(s, c)[i]).id,
            (#[trigger] insert_stable(s, c)[j]).id,
        ) by {
            if i == 0 {
                if j == 1 {
                } else {
                    lemma_chars_le_trans(c.id, s[0].id, s[j - 1].id);
                }
            }
        }
        assert(seq![c] + s =~= (Seq::<ContractV>::empty().push(c)) + s);
        assert((Seq::<ContractV>::empty().push(c)).to_multiset() =~= Seq::<
            ContractV,
        >::empty().to_multiset().insert(c));
        assert(insert_stable(s, c).to_multiset() =~= s.to_multiset().insert(c));
    } else {
        let sd = s.drop_first();
        assert(forall|j: int| 0 <= j < sd.len() ==> sd[j] == s[j + 1]);
        assert(models_sorted(sd));
        lemma_insert_stable_ensures(sd, c);
        let r = insert_stable(s, c);
        let rd = insert_stable(sd, c);
        assert(r =~= seq![s[0]] + rd);
        lemma_chars_le_total(c.id, s[0].id);
        assert(chars_le(s[0].id, c.id));
        assert forall|i: int, j: int| 0 <= i < j < r.len() implies chars_le(
            (#[trigger] r[i]).id,
            (#[trigger] r[j]).id,
        ) by {
            if i == 0 {
                // every element of rd is either c or an element of sd
                rd.to_multiset_ensures();
                sd.to_multiset_ensures();
                assert(rd.to_multiset().count(rd[j - 1]) > 0) by {
                    assert(rd.contains(rd[j - 1]));
                }
                if rd[j - 1] == c {
                } else {
                    assert(sd.to_multiset().count(rd[j - 1]) > 0);
                    assert(sd.contains(rd[j - 1]));
                    let w = choose|w: int| 0 <= w < sd.len() && sd[w] == rd[j - 1];
                    assert(chars_le(s[0].id, s[w + 1].id));
                }
            }
        }
        assert(seq![s[0]] + rd =~= (Seq::<ContractV>::empty().push(s[0])) + rd);
        assert((Seq::<ContractV>::empty().push(s[0])).to_multiset() =~= Seq::<
            ContractV,
        >::empty().to_multiset().insert(s[0]));
        assert(seq![s[0]] + sd =~= (Seq::<ContractV>::empty().push(s[0])) + sd);
        assert(s =~= seq![s[0]] + sd);
        assert(r.to_multiset() =~= s.to_multiset().insert(c));
    }
}

/// The stable sort is sorted and keeps exactly the records.
pub proof fn lemma_stable_sort_ensures(s: Seq<ContractV>)
    ensures
        models_sorted(stable_sort(s)),
        stable_sort(s).to_multiset() == s.to_multiset(),
        stable_sort(s).len() == s.len(),
    decreases s,
{
    s.to_multiset_ensures();
    if s.len() > 0 {
        lemma_stable_sort_ensures(s.drop_last());
        lemma_insert_stable_ensures(stable_sort(s.drop_last()), s.last());
        s.drop_last().to_multiset_ensures();
        assert(s =~= s.drop_last().push(s.last()));
        assert(s.drop_last().push(s.last()).to_multiset() =~= s.drop_last().to_multiset().insert(
            s.last(),
        ));
    }
}

/// Inserts a record into a sorted list, after every record whose id is
/// less than or equal: the exec form of the stable insertion.
fn insert_sorted(out: &mut Vec<Contract>, c: Contract)
    ensures
        final(out)@.map_values(|x: Contract| contract_v(x)) == insert_stable(
            old(out)@.map_values(|x: Contract| contract_v(x)),
            contract_v(c),
        ),
{
    let ghost m = out@.map_values(|x: Contract| contract_v(x));
    let mut pos: usize = 0;
    while pos < out.len() && str_le(out[pos].id.as_str(), c.id.as_str())
        invariant
            pos <= out@.len(),
            m == out@.map_values(|x: Contract| contract_v(x)),
            m.len() == out@.len(),
            forall|j: int| 0 <= j < pos ==> !chars_lt(contract_v(c).id, (#[trigger] m[j]).id),
        decreases out@.len() - pos,
    {
        proof {
            assert(m[pos as int].id == out@[pos as int].id@);
        }
        pos = pos + 1;
    }
    proof {
        if (pos as int) < m.len() {
            assert(!chars_le(out@[pos as int].id@, c.id@));
            assert(chars_lt(contract_v(c).id, m[pos as int].id));
        }
        lemma_insert_stable_at(m, contract_v(c), pos as int);
    }
    let ghost before = out@;
    out.insert(pos, c);
    proof {
        assert(out@ =~= before.take(pos as int) + seq![c] + before.skip(pos as int));
        assert(out@.map_values(|x: Contract| contract_v(x)) =~= insert_stable(
            m,
            contract_v(c),
        ));
    }
}

/// Sorts records by id ascending with the stable order: records with equal
/// ids keep their scan order, so the result is the stable sort, exactly.
fn sort_contracts(input: Vec<Contract>) -> (r: Vec<Contract>)
    ensures
        r@.map_values(|x: Contract| contract_v(x)) == stable_sort(
            input@.map_values(|x: Contract| contract_v(x)),
        ),
{
    let ghost orig = input@.map_values(|x: Contract| contract_v(x));
    let mut pool = input;
    let mut out: Vec<Contract> = Vec::new();
    let ghost mut n: int = 0;
    while pool.len() > 0
        invariant
            0 <= n <= orig.len(),
            n + pool@.len() == orig.len(),
            pool@.map_values(|x: Contract| contract_v(x)) =~= orig.skip(n),
            out@.map_values(|x: Contract| contract_v(x)) =~= stable_sort(orig.take(n)),
        decreases pool@.len(),
    {
        let ghost pool_before = pool@;
        let c = pool.remove(0);
        insert_sorted(&mut out, c);
        proof {
            lemma_map_remove(pool_before, 0);
            let f = |x: Contract| contract_v(x);
            assert(pool_before.map_values(f)[0] == f(c)) by {
                assert(pool_before[0] == c);
            }
            assert(f(c) == orig[n]);
            assert(pool@.map_values(f) =~= orig.skip(n + 1)) by {
                assert(pool@.map_values(f) =~= pool_before.map_values(f).remove(0));
            }
            assert(orig.take(n + 1).drop_last() =~= orig.take(n));
            assert(orig.take(n + 1).last() == orig[n]);
            assert(out@.map_values(f) =~= stable_sort(orig.take(n + 1)));
            n = n + 1;
        }
    }
    proof {
        assert(orig.take(orig.len() as int) =~= orig);
    }
    out
}

/// Builds the parse warning for a file.
fn make_parse_warning(path: &String, err: &String) -> (r: String)
    ensures
        r@ == parse_warning(path@, err@),
{
    let mut w = String::from_str("Failed to parse ");
    w.append(path.as_str());
    w.append(": ");
    w.append(err.as_str());
    w
}

/// Builds the read warning for a file.
fn make_read_warning(path: &String, err: &String) -> (r: String)
    ensures
        r@ == read_warning(path@, err@),
{
    let mut w = String::from_str("Failed to read ");
    w.append(path.as_str());
    w.append(": ");
    w.append(err.as_str());
    w
}

/// Loads the records of one directory scan: every record file either
/// contributes its record or exactly one warning naming its path; other
/// files are ignored; the record list comes back as the stable sort by id,
/// ascending, records with equal ids keeping their scan order.
pub fn load_contracts(sources: &Vec<RecordSource>) -> (r: (Vec<Contract>, Vec<String>))
    ensures
        r.0@.map_values(|x: Contract| contract_v(x)) == stable_sort(parsed_records(sources@)),
        sorted_by_id(r.0@),
        r.0@.map_values(|x: Contract| contract_v(x)).to_multiset() == parsed_records(
            sources@,
        ).to_multiset(),
        strs_view(r.1@) == load_warnings(sources@),
{
    let mut contracts: Vec<Contract> = Vec::new();
    let mut warnings: Vec<String> = Vec::new();
    let mut i: usize = 0;
    while i < sources.len()
        invariant
            i <= sources@.len(),
            contracts@.map_values(|x: Contract| contract_v(x)) =~= parsed_records(
                sources@.take(i as int),
            ),
            strs_view(warnings@) =~= load_warnings(sources@.take(i as int)),
        decreases sources@.len() - i,
    {
        let s = &sources[i];
        let ghost contracts_before = contracts@;
        let ghost warnings_before = warnings@;
        if ends_with_str(s.path.as_str(), ".contract.toml") {
            match &s.outcome {
                ReadOutcome::Parsed(j) => {
                    match contract_from_json(j) {
                        Ok(c) => {
                            contracts.push(c);
                        },
                        Err(m) => {
                            warnings.push(make_parse_warning(&s.path, &m));
                        },
                    }
                },
                ReadOutcome::ParseError(e) => {
                    warnings.push(make_parse_warning(&s.path, e));
                },
                ReadOutcome::ReadError(e) => {
                    warnings.push(make_read_warning(&s.path, e));
                },
            }
        }
        proof {
            lemma_map_push(contracts_before, arbitrary());
            assert(sources@.take(i + 1).drop_last() =~= sources@.take(i as int));
            assert(sources@.take(i + 1).last() == sources@[i as int]);
            if contracts@.len() > contracts_before.len() {
                assert(contracts@ =~= contracts_before.push(contracts@.last()));
                assert(contracts@.map_values(|x: Contract| contract_v(x)) =~= contracts_before
                    .map_values(|x: Contract| contract_v(x)).push(
                    contract_v(contracts@.last()),
                ));
            }
            if warnings@.len() > warnings_before.len() {
                assert(warnings@ =~= warnings_before.push(warnings@.last()));
                crate::model::lemma_strs_view_push(warnings_before, warnings@.last());
            }
            assert(contracts@.map_values(|x: Contract| contract_v(x)) =~= parsed_records(
                sources@.take(i + 1),
            ));
            assert(strs_view(warnings@) =~= load_warnings(sources@.take(i + 1)));
        }
        i = i + 1;
    }
    proof {
        assert(sources@.take(sources@.len() as int) =~= sources@);
    }
    let sorted = sort_contracts(contracts);
    proof {
        lemma_stable_sort_ensures(parsed_records(sources@));
        let sm = sorted@.map_values(|x: Contract| contract_v(x));
        assert(sm.len() == sorted@.len());
        assert forall|i: int, j: int| 0 <= i < j < sorted@.len() implies chars_le(
            (#[trigger] sorted@[i]).id@,
            (#[trigger] sorted@[j]).id@,
        ) by {
            assert(sm[i].id == sorted@[i].id@);
            assert(sm[j].id == sorted@[j].id@);
        }
    }
    (sorted, warnings)
}

/// Record models sorted by id, ascending.
pub open spec fn models_sorted(s: Seq<ContractV>) -> bool {
    forall|i: int, j: int| 0 <= i < j < s.len() ==> chars_le(s[i].id, s[j].id)
}

/// No two records share an id.
pub open spec fn models_distinct_ids(s: Seq<ContractV>) -> bool {
    forall|i: int, j: int| 0 <= i < s.len() && 0 <= j < s.len() && i != j ==> s[i].id != s[j].id
}

/// The sorted record list is unique: two sorted lists holding the same
/// records, with no id repeated, are the same list. Loading is therefore
/// deterministic whatever order the directory scan presented the files in.
pub proof fn lemma_sorted_records_unique(a: Seq<ContractV>, b: Seq<ContractV>)
    requires
        models_sorted(a),
        models_sorted(b),
        models_distinct_ids(a),
        a.to_multiset() == b.to_multiset(),
    ensures
        a == b,
    decreases a.len(),
{
    a.to_multiset_ensures();
    b.to_multiset_ensures();
    assert(a.len() == b.len());
    if a.len() == 0 {
        assert(a =~= b);
    } else {
        let x = a.last();
        assert(a.to_multiset().count(x) > 0) by {
            assert(a.contains(x));
        }
        assert(b.contains(x));
        let jx = choose|j: int| 0 <= j < b.len() && b[j] == x;
        let y = b.last();
        assert(b.to_multiset().count(y) > 0) by {
            assert(b.contains(y));
        }
        assert(a.contains(y));
        let ky = choose|k: int| 0 <= k < a.len() && a[k] == y;
        // x's id tops a, y's id tops b; each list holds the other's top
        assert(chars_le(x.id, y.id)) by {
            if jx < b.len() - 1 {
            } else {
                lemma_chars_le_refl(x.id);
            }
        }
        assert(chars_le(y.id, x.id)) by {
            if ky < a.len() - 1 {
            } else {
                lemma_chars_le_refl(y.id);
            }
        }
        lemma_chars_le_antisym(x.id, y.id);
        // with distinct ids, the record holding that id is unique in a
        assert(ky == a.len() - 1);
        assert(y == x);
        let ad = a.drop_last();
        let bd = b.drop_last();
        assert(a =~= ad.push(x));
        assert(b =~= bd.push(x));
        ad.to_multiset_ensures();
        bd.to_multiset_ensures();
        assert(ad.to_multiset().insert(x) =~= a.to_multiset());
        assert(bd.to_multiset().insert(x) =~= b.to_multiset());
        assert(ad.to_multiset() =~= bd.to_multiset()) by {
            assert forall|z: ContractV| ad.to_multiset().count(z) == bd.to_multiset().count(
                z,
            ) by {
                assert(ad.to_multiset().insert(x).count(z) == bd.to_multiset().insert(x).count(
                    z,
                ));
            }
        }
        assert(models_sorted(ad)) by {
            assert(forall|i: int| 0 <= i < ad.len() ==> ad[i] == a[i]);
        }
        assert(models_sorted(bd)) by {
            assert(forall|i: int| 0 <= i < bd.len() ==> bd[i] == b[i]);
        }
        assert(models_distinct_ids(ad)) by {
            assert(forall|i: int| 0 <= i < ad.len() ==> ad[i] == a[i]);
        }
        lemma_sorted_records_unique(ad, bd);
        assert(a =~= b);
    }
}

/// The position of the first loaded record carrying this id, if any: the
/// lookup behind every detail read, validation and mutation of one record.
pub fn find_contract_index(contracts: &Vec<Contract>, id: &str) -> (r: Option<usize>)
    ensures
        match r {
            Some(i) => {
                &&& i < contracts@.len()
                &&& contracts@[i as int].id@ == id@
                &&& forall|j: int| 0 <= j < i ==> (#[trigger] contracts@[j]).id@ != id@
            },
            None => forall|j: int|
                0 <= j < contracts@.len() ==> (#[trigger] contracts@[j]).id@ != id@,
        },
{
    let mut i: usize = 0;
    while i < contracts.len()
        invariant
            i <= contracts@.len(),
            forall|j: int| 0 <= j < i ==> (#[trigger] contracts@[j]).id@ != id@,
        decreases contracts@.len() - i,
    {
        if crate::json::str_eq(contracts[i].id.as_str(), id) {
            return Some(i);
        }
        i = i + 1;
    }
    None
}

/// A scan without record files yields no records and no warnings.
pub proof fn lemma_empty_scan(ss: Seq<RecordSource>)
    requires
        forall|i: int| 0 <= i < ss.len() ==> !is_record_path(ss[i].path@),
    ensures
        parsed_records(ss) =~= Seq::<ContractV>::empty(),
        load_warnings(ss) =~= Seq::<Seq<char>>::empty(),
    decreases ss,
{
    if ss.len() > 0 {
        lemma_empty_scan(ss.drop_last());
    }
}

/// Each scanned file contributes exactly one warning when it is a broken
/// record file, and none otherwise.
pub proof fn lemma_one_warning_per_file(ss: Seq<RecordSource>, i: int)
    requires
        0 <= i < ss.len(),
    ensures
        load_warnings(ss.take(i + 1)).len() == load_warnings(ss.take(i)).len() + (
        if warning_of(ss[i]) is Some {
            1int
        } else {
            0int
        }),
{
    assert(ss.take(i + 1).drop_last() =~= ss.take(i));
    assert(ss.take(i + 1).last() == ss[i]);
}

/// A record file with undecodable content contributes exactly one warning,
/// which names its path, and no record.
pub proof fn lemma_malformed_file_warns(ss: Seq<RecordSource>, i: int)
    requires
        0 <= i < ss.len(),
        is_record_path(ss[i].path@),
        ss[i].outcome matches ReadOutcome::ParseError(e),
    ensures
        record_of(ss[i]) is None,
        warning_of(ss[i]) matches Some(w) && w == parse_warning(
            ss[i].path@,
            ss[i].outcome->ParseError_0@,
        ),
        load_warnings(ss).len() >= 1,
    decreases ss,
{
    if i == ss.len() - 1 {
        assert(ss.last() == ss[i]);
    } else {
        lemma_malformed_file_warns(ss.drop_last(), i);
        assert(ss.drop_last()[i] == ss[i]);
    }
}

} // verus!
