//! Phased governance: proposals pass through proposal, cooling, and
//! execution phases under time locks; and transparent slashing with an
//! appeal flow. Times are Unix seconds.

use vstd::prelude::*;

verus! {

/// Default cooling period, in seconds.
pub const DEFAULT_COOLING_SECS: u64 = 86_400;

/// Default execution window, in seconds.
pub const DEFAULT_EXECUTION_WINDOW_SECS: u64 = 604_800;

/// Phase of a proposal.
#[derive(Clone, Copy, Debug, PartialEq, Eq, Structural)]
pub enum ProposalPhase {
    /// Open for voting.
    Proposal,
    /// Cooling: the community can react before execution.
    Cooling,
    /// Executable, within the window.
    Execution,
}

/// A parameter-change proposal under time locks.
#[derive(Clone, Debug)]
pub struct Proposal {
    pub id: u64,
    pub target_key: Vec<u8>,
    pub target_value: Vec<u8>,
    pub phase: ProposalPhase,
    pub cooling_ends_at: Option<u64>,
    pub execution_ends_at: Option<u64>,
}

/// Governance failures.
#[derive(Clone, Copy, Debug, PartialEq, Eq, Structural)]
pub enum GovernanceError {
    /// No proposal carries this identifier.
    NotFound,
    /// The proposal is not in the phase this step needs.
    InvalidPhase,
    /// The cooling period has not ended.
    CoolingNotEnded,
    /// The execution window has passed.
    ExecutionWindowExpired,
}

/// The governance engine: live proposals under ascending identifiers.
pub struct Governance {
    proposals: Vec<Proposal>,
    next_id: u64,
    cooling_secs: u64,
    execution_window_secs: u64,
}

impl Governance {
    /// The live proposals, in creation order.
    pub closed spec fn spec_proposals(&self) -> Seq<Proposal> {
        self.proposals@
    }

    /// The identifier the next proposal receives.
    pub closed spec fn spec_next_id(&self) -> u64 {
        self.next_id
    }

    /// The configured cooling period.
    pub closed spec fn spec_cooling(&self) -> u64 {
        self.cooling_secs
    }

    /// The configured execution window.
    pub closed spec fn spec_window(&self) -> u64 {
        self.execution_window_secs
    }

    /// One proposal per identifier, all below the next identifier.
    pub closed spec fn wf(&self) -> bool {
        &&& forall|i: int, j: int|
            0 <= i < j < self.proposals@.len() ==> (#[trigger] self.proposals@[i]).id != (
            #[trigger] self.proposals@[j]).id
        &&& forall|i: int|
            0 <= i < self.proposals@.len() ==> (#[trigger] self.proposals@[i]).id < self.next_id
    }

    /// An engine with the given periods, in seconds.
    pub fn new(cooling_secs: u64, execution_window_secs: u64) -> (r: Self)
        ensures
            r.wf(),
            r.spec_proposals().len() == 0,
            r.spec_cooling() == cooling_secs,
            r.spec_window() == execution_window_secs,
            r.spec_next_id() == 1,
    {
        Governance { proposals: Vec::new(), next_id: 1, cooling_secs, execution_window_secs }
    }

    /// Create a proposal in the proposal phase; returns its identifier.
    pub fn propose(&mut self, target_key: Vec<u8>, target_value: Vec<u8>) -> (r: u64)
        requires
            old(self).wf(),
            old(self).spec_next_id() < u64::MAX,
        ensures
            final(self).wf(),
            r == old(self).spec_next_id(),
            final(self).spec_next_id() == old(self).spec_next_id() + 1,
            final(self).spec_cooling() == old(self).spec_cooling(),
            final(self).spec_window() == old(self).spec_window(),
            final(self).spec_proposals().len() == old(self).spec_proposals().len() + 1,
            forall|i: int|
                0 <= i < old(self).spec_proposals().len() ==> final(self).spec_proposals()[i]
                    == old(self).spec_proposals()[i],
            final(self).spec_proposals().last().id == r,
            final(self).spec_proposals().last().target_key@ == target_key@,
            final(self).spec_proposals().last().target_value@ == target_value@,
            final(self).spec_proposals().last().phase == ProposalPhase::Proposal,
            final(self).spec_proposals().last().cooling_ends_at matches None,
            final(self).spec_proposals().last().execution_ends_at matches None,
    {
        let id = self.next_id;
        self.next_id = self.next_id + 1;
        self.proposals.push(
            Proposal {
                id,
                target_key,
                target_value,
                phase: ProposalPhase::Proposal,
                cooling_ends_at: None,
                execution_ends_at: None,
            },
        );
        id
    }

    /// The position of the proposal carrying an identifier.
    fn find(&self, id: u64) -> (r: Option<usize>)
        ensures
            match r {
                Some(i) => i < self.spec_proposals().len() && self.spec_proposals()[i as int].id
                    == id,
                None => forall|i: int|
                    0 <= i < self.spec_proposals().len() ==> (#[trigger] self.spec_proposals()[i]).id != id,
            },
    {
        let mut i: usize = 0;
        let n = self.proposals.len();
        while i < n
            invariant
                0 <= i <= n,
                n == self.proposals@.len(),
                forall|j: int| 0 <= j < i ==> (#[trigger] self.proposals@[j]).id != id,
            decreases n - i,
        {
            if self.proposals[i].id == id {
                return Some(i);
            }
            i = i + 1;
        }
        None
    }

    /// Advance a proposal to cooling; its cooling lock ends one period from
    /// `now`.
    pub fn advance_to_cooling(&mut self, id: u64, now_secs: u64) -> (r: Result<
        (),
        GovernanceError,
    >)
        requires
            old(self).wf(),
            now_secs + old(self).spec_cooling() <= u64::MAX,
        ensures
            final(self).wf(),
            final(self).spec_cooling() == old(self).spec_cooling(),
            final(self).spec_window() == old(self).spec_window(),
            final(self).spec_next_id() == old(self).spec_next_id(),
            (forall|i: int|
                0 <= i < old(self).spec_proposals().len() ==> (#[trigger] old(self).spec_proposals()[i]).id != id) ==> r == Err::<(), GovernanceError>(
                GovernanceError::NotFound,
            ) && final(self).spec_proposals() == old(self).spec_proposals(),
            forall|i: int|
                0 <= i < old(self).spec_proposals().len() && (#[trigger] old(self).spec_proposals()[i]).id == id ==> ({
                    let p = old(self).spec_proposals()[i];
                    if p.phase != ProposalPhase::Proposal {
                        r == Err::<(), GovernanceError>(GovernanceError::InvalidPhase) && final(self).spec_proposals() == old(self).spec_proposals()
                    } else {
                        r == Ok::<(), GovernanceError>(()) && final(self).spec_proposals()
                            == old(self).spec_proposals().update(
                            i,
                            Proposal {
                                phase: ProposalPhase::Cooling,
                                cooling_ends_at: Some(
                                    (now_secs + old(self).spec_cooling()) as u64,
                                ),
                                ..p
                            },
                        )
                    }
                }),
    {
        let idx = match self.find(id) {
            Some(i) => i,
            None => {
                return Err(GovernanceError::NotFound);
            },
        };
        if !matches!(self.proposals[idx].phase, ProposalPhase::Proposal) {
            return Err(GovernanceError::InvalidPhase);
        }
        let ends = now_secs + self.cooling_secs;
        let old_p = self.proposals.remove(idx);
        let new_p = Proposal {
            phase: ProposalPhase::Cooling,
            cooling_ends_at: Some(ends),
            ..old_p
        };
        self.proposals.insert(idx, new_p);
        proof {
            assert(self.proposals@ =~= old(self).spec_proposals().update(idx as int, new_p));
        }
        Ok(())
    }

    /// Advance a proposal to execution, once its cooling lock has ended; the
    /// execution window ends one window from `now`.
    pub fn advance_to_execution(&mut self, id: u64, now_secs: u64) -> (r: Result<
        (),
        GovernanceError,
    >)
        requires
            old(self).wf(),
            now_secs + old(self).spec_window() <= u64::MAX,
        ensures
            final(self).wf(),
            final(self).spec_cooling() == old(self).spec_cooling(),
            final(self).spec_window() == old(self).spec_window(),
            final(self).spec_next_id() == old(self).spec_next_id(),
            (forall|i: int|
                0 <= i < old(self).spec_proposals().len() ==> (#[trigger] old(self).spec_proposals()[i]).id != id) ==> r == Err::<(), GovernanceError>(
                GovernanceError::NotFound,
            ) && final(self).spec_proposals() == old(self).spec_proposals(),
            forall|i: int|
                0 <= i < old(self).spec_proposals().len() && (#[trigger] old(self).spec_proposals()[i]).id == id ==> ({
                    let p = old(self).spec_proposals()[i];
                    if p.phase != ProposalPhase::Cooling || (p.cooling_ends_at matches None) {
                        r == Err::<(), GovernanceError>(GovernanceError::InvalidPhase) && final(self).spec_proposals() == old(self).spec_proposals()
                    } else if p.cooling_ends_at matches Some(ce) && now_secs < ce {
                        r == Err::<(), GovernanceError>(GovernanceError::CoolingNotEnded) && final(self).spec_proposals() == old(self).spec_proposals()
                    } else {
                        r == Ok::<(), GovernanceError>(()) && final(self).spec_proposals()
                            == old(self).spec_proposals().update(
                            i,
                            Proposal {
                                phase: ProposalPhase::Execution,
                                execution_ends_at: Some((now_secs + old(self).spec_window()) as u64),
                                ..p
                            },
                        )
                    }
                }),
    {
        let idx = match self.find(id) {
            Some(i) => i,
            None => {
                return Err(GovernanceError::NotFound);
            },
        };
        if !matches!(self.proposals[idx].phase, ProposalPhase::Cooling) {
            return Err(GovernanceError::InvalidPhase);
        }
        let ce = match self.proposals[idx].cooling_ends_at {
            Some(c) => c,
            None => {
                return Err(GovernanceError::InvalidPhase);
            },
        };
        if now_secs < ce {
            return Err(GovernanceError::CoolingNotEnded);
        }
        let ends = now_secs + self.execution_window_secs;
        let old_p = self.proposals.remove(idx);
        let new_p = Proposal {
            phase: ProposalPhase::Execution,
            execution_ends_at: Some(ends),
            ..old_p
        };
        self.proposals.insert(idx, new_p);
        proof {
            assert(self.proposals@ =~= old(self).spec_proposals().update(idx as int, new_p));
        }
        Ok(())
    }

    /// Execute a proposal within its window: it is removed and its key and
    /// value are returned for the caller to apply.
    pub fn execute(&mut self, id: u64, now_secs: u64) -> (r: Result<
        (Vec<u8>, Vec<u8>),
        GovernanceError,
    >)
        requires
            old(self).wf(),
        ensures
            final(self).wf(),
            final(self).spec_cooling() == old(self).spec_cooling(),
            final(self).spec_window() == old(self).spec_window(),
            final(self).spec_next_id() == old(self).spec_next_id(),
            (forall|i: int|
                0 <= i < old(self).spec_proposals().len() ==> (#[trigger] old(self).spec_proposals()[i]).id != id) ==> (r matches Err(e) && e
                == GovernanceError::NotFound && final(self).spec_proposals() == old(self).spec_proposals()),
            forall|i: int|
                0 <= i < old(self).spec_proposals().len() && (#[trigger] old(self).spec_proposals()[i]).id == id ==> ({
                    let p = old(self).spec_proposals()[i];
                    if p.phase != ProposalPhase::Execution || (p.execution_ends_at matches None) {
                        r matches Err(e) && e == GovernanceError::InvalidPhase && final(self).spec_proposals() == old(self).spec_proposals()
                    } else if p.execution_ends_at matches Some(we) && now_secs > we {
                        r matches Err(e) && e == GovernanceError::ExecutionWindowExpired && final(self).spec_proposals() == old(self).spec_proposals()
                    } else {
                        r matches Ok(kv) && kv.0@ == p.target_key@ && kv.1@ == p.target_value@
                            && final(self).spec_proposals() == old(self).spec_proposals().remove(i)
                    }
                }),
    {
        let idx = match self.find(id) {
            Some(i) => i,
            None => {
                return Err(GovernanceError::NotFound);
            },
        };
        if !matches!(self.proposals[idx].phase, ProposalPhase::Execution) {
            return Err(GovernanceError::InvalidPhase);
        }
        let we = match self.proposals[idx].execution_ends_at {
            Some(w) => w,
            None => {
                return Err(GovernanceError::InvalidPhase);
            },
        };
        if now_secs > we {
            return Err(GovernanceError::ExecutionWindowExpired);
        }
        let p = self.proposals.remove(idx);
        Ok((p.target_key, p.target_value))
    }

    /// The proposal carrying an identifier, if live.
    pub fn get(&self, id: u64) -> (r: Option<&Proposal>)
        requires
            self.wf(),
        ensures
            match r {
                Some(p) => exists|i: int|
                    0 <= i < self.spec_proposals().len() && (#[trigger] self.spec_proposals()[i]).id
                        == id && *p == self.spec_proposals()[i],
                None => forall|i: int|
                    0 <= i < self.spec_proposals().len() ==> (#[trigger] self.spec_proposals()[i]).id != id,
            },
    {
        match self.find(id) {
            Some(i) => Some(&self.proposals[i]),
            None => None,
        }
    }
}

impl Default for Governance {
    /// The default periods: a day of cooling, a week to execute.
    fn default() -> (r: Self)
        ensures
            r.wf(),
            r.spec_proposals().len() == 0,
            r.spec_cooling() == DEFAULT_COOLING_SECS,
            r.spec_window() == DEFAULT_EXECUTION_WINDOW_SECS,
    {
        Governance::new(DEFAULT_COOLING_SECS, DEFAULT_EXECUTION_WINDOW_SECS)
    }
}

} // verus!
