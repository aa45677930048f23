//! The per-connection workflow gate: discovery operations must come before
//! detail reads, and a detail read of an id must come before updating or
//! deleting it. Gate state only grows within a session.
use vstd::prelude::*;

use crate::json::str_eq;
use crate::model::strs_view;

verus! {

/// A discovery flag, plus every id fetched in full so far.
pub struct SessionState {
    pub listed: bool,
    pub read_ids: Vec<String>,
}

/// The id has been detail-read in this session.
pub open spec fn has_read(s: SessionState, id: Seq<char>) -> bool {
    strs_view(s.read_ids@).contains(id)
}

/// The second state allows everything the first one allows.
pub open spec fn gate_grows(a: SessionState, b: SessionState) -> bool {
    (a.listed ==> b.listed) && (forall|id: Seq<char>| has_read(a, id) ==> has_read(b, id))
}

/// The error for a detail read before any discovery call.
pub open spec fn listed_error(tool: Seq<char>, contract_id: Seq<char>) -> Seq<char> {
    "You must call sigil_list_contracts or sigil_get_affected_contracts before calling "@ + tool
        + " for '"@ + contract_id + "'."@
}

/// The error for an update or delete before a detail read of the id.
pub open spec fn read_error(tool: Seq<char>, contract_id: Seq<char>) -> Seq<char> {
    "You must call sigil_get_contract for '"@ + contract_id + "' before calling "@ + tool + "."@
}

impl SessionState {
    /// A fresh session: nothing discovered, nothing read.
    pub fn new() -> (r: SessionState)
        ensures
            !r.listed,
            r.read_ids@.len() == 0,
    {
        SessionState { listed: false, read_ids: Vec::new() }
    }

    /// Records a discovery operation; the rest of the state is untouched.
    pub fn mark_listed(&mut self)
        ensures
            final(self).listed,
            final(self).read_ids == old(self).read_ids,
            gate_grows(*old(self), *final(self)),
    {
        self.listed = true;
    }

    /// Allows a detail read exactly when a discovery operation has run,
    /// whatever the id; otherwise reports the workflow error.
    pub fn require_listed(&self, tool: &str, contract_id: &str) -> (r: Result<(), String>)
        ensures
            r is Ok <==> self.listed,
            r matches Err(m) ==> m@ == listed_error(tool@, contract_id@),
    {
        if self.listed {
            Ok(())
        } else {
            let mut m = String::from_str(
                "You must call sigil_list_contracts or sigil_get_affected_contracts before calling ",
            );
            m.append(tool);
            m.append(" for '");
            m.append(contract_id);
            m.append("'.");
            Err(m)
        }
    }

    /// Records a detail read of an id; ids are never removed.
    pub fn mark_read(&mut self, contract_id: &str)
        ensures
            final(self).listed == old(self).listed,
            has_read(*final(self), contract_id@),
            forall|id: Seq<char>| has_read(*final(self), id) <==> has_read(*old(self), id) || id
                == contract_id@,
            gate_grows(*old(self), *final(self)),
    {
        let mut i: usize = 0;
        while i < self.read_ids.len()
            invariant
                i <= self.read_ids@.len(),
                forall|j: int| 0 <= j < i ==> strs_view(self.read_ids@)[j] != contract_id@,
                self == old(self),
            decreases self.read_ids@.len() - i,
        {
            if str_eq(self.read_ids[i].as_str(), contract_id) {
                proof {
                    assert(strs_view(self.read_ids@)[i as int] == contract_id@);
                }
                return ;
            }
            i = i + 1;
        }
        proof {
            if has_read(*self, contract_id@) {
                let k = choose|k: int|
                    0 <= k < strs_view(self.read_ids@).len() && strs_view(self.read_ids@)[k]
                        == contract_id@;
                assert(false);
            }
        }
        let ghost prev = self.read_ids@;
        self.read_ids.push(String::from_str(contract_id));
        proof {
            crate::model::lemma_strs_view_push(prev, self.read_ids@.last());
            assert(strs_view(self.read_ids@) =~= strs_view(prev).push(contract_id@));
            assert(strs_view(self.read_ids@)[strs_view(prev).len() as int] == contract_id@);
            assert forall|id: Seq<char>|
                has_read(*self, id) <==> has_read(*old(self), id) || id == contract_id@ by {
                if has_read(*self, id) {
                    let k = choose|k: int|
                        0 <= k < strs_view(self.read_ids@).len() && strs_view(self.read_ids@)[k]
                            == id;
                    if k < strs_view(prev).len() {
                        assert(strs_view(prev)[k] == id);
                    }
                }
                if has_read(*old(self), id) {
                    let k = choose|k: int|
                        0 <= k < strs_view(prev).len() && strs_view(prev)[k] == id;
                    assert(strs_view(self.read_ids@)[k] == id);
                }
            }
        }
    }

    /// Allows updating or deleting an id exactly when that id has been
    /// detail-read in this session; otherwise reports the workflow error.
    pub fn require_read(&self, tool: &str, contract_id: &str) -> (r: Result<(), String>)
        ensures
            r is Ok <==> has_read(*self, contract_id@),
            r matches Err(m) ==> m@ == read_error(tool@, contract_id@),
    {
        let mut i: usize = 0;
        while i < self.read_ids.len()
            invariant
                i <= self.read_ids@.len(),
                forall|j: int| 0 <= j < i ==> strs_view(self.read_ids@)[j] != contract_id@,
            decreases self.read_ids@.len() - i,
        {
            if str_eq(self.read_ids[i].as_str(), contract_id) {
                proof {
                    assert(strs_view(self.read_ids@)[i as int] == contract_id@);
                }
                return Ok(());
            }
            i = i + 1;
        }
        proof {
            if has_read(*self, contract_id@) {
                let k = choose|k: int|
                    0 <= k < strs_view(self.read_ids@).len() && strs_view(self.read_ids@)[k]
                        == contract_id@;
                assert(false);
            }
        }
        let mut m = String::from_str("You must call sigil_get_contract for '");
        m.append(contract_id);
        m.append("' before calling ");
        m.append(tool);
        m.append(".");
        Err(m)
    }
}

} // verus!
