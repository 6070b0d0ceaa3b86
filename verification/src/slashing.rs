//! Transparent slashing with appeals: auditable slash records, one appeal
//! per slash, resolved by governance.

use vstd::prelude::*;

verus! {

/// Why a validator was slashed.
#[derive(Clone, Debug, PartialEq, Eq)]
pub enum SlashReason {
    /// Conflicting votes in one round.
    Equivocation,
    /// Missed blocks or a liveness failure.
    Liveness,
    /// Incorrect execution or a proven fraud.
    Fraud,
    /// Anything else, with details.
    Other(Vec<u8>),
}

/// An auditable slash record.
#[derive(Clone, Debug)]
pub struct SlashRecord {
    pub id: u64,
    pub validator: [u8; 32],
    pub amount: u128,
    pub reason: SlashReason,
    pub block_height: u64,
    pub appeal_deadline: u64,
}

/// Status of an appeal.
#[derive(Clone, Copy, Debug, PartialEq, Eq, Structural)]
pub enum AppealStatus {
    Pending,
    Approved,
    Rejected,
}

/// An appeal against a slash, with opaque evidence.
#[derive(Clone, Debug)]
pub struct SlashingAppeal {
    pub id: u64,
    pub slash_id: u64,
    pub evidence: Vec<u8>,
    pub status: AppealStatus,
}

/// Slashing failures.
#[derive(Clone, Copy, Debug, PartialEq, Eq, Structural)]
pub enum SlashingError {
    /// No slash record carries this identifier.
    SlashNotFound,
    /// No appeal carries this identifier.
    AppealNotFound,
    /// The slash already has an appeal.
    AppealAlreadyExists,
    /// The appeal is already resolved.
    AppealAlreadyResolved,
}

/// The registry of slashes and appeals.
pub struct SlashRegistry {
    slashes: Vec<SlashRecord>,
    appeals: Vec<SlashingAppeal>,
    next_slash_id: u64,
    next_appeal_id: u64,
}

impl SlashRegistry {
    /// The slash records, in recording order.
    pub closed spec fn spec_slashes(&self) -> Seq<SlashRecord> {
        self.slashes@
    }

    /// The appeals, in submission order.
    pub closed spec fn spec_appeals(&self) -> Seq<SlashingAppeal> {
        self.appeals@
    }

    /// Distinct ascending identifiers on both lists.
    pub closed spec fn wf(&self) -> bool {
        &&& forall|i: int, j: int|
            0 <= i < j < self.slashes@.len() ==> (#[trigger] self.slashes@[i]).id != (
            #[trigger] self.slashes@[j]).id
        &&& forall|i: int|
            0 <= i < self.slashes@.len() ==> (#[trigger] self.slashes@[i]).id
                < self.next_slash_id
        &&& forall|i: int, j: int|
            0 <= i < j < self.appeals@.len() ==> (#[trigger] self.appeals@[i]).id != (
            #[trigger] self.appeals@[j]).id
        &&& forall|i: int|
            0 <= i < self.appeals@.len() ==> (#[trigger] self.appeals@[i]).id
                < self.next_appeal_id
    }

    /// The identifier the next slash receives.
    pub closed spec fn spec_next_slash_id(&self) -> u64 {
        self.next_slash_id
    }

    /// The identifier the next appeal receives.
    pub closed spec fn spec_next_appeal_id(&self) -> u64 {
        self.next_appeal_id
    }

    /// An empty registry.
    pub fn new() -> (r: Self)
        ensures
            r.wf(),
            r.spec_slashes().len() == 0,
            r.spec_appeals().len() == 0,
            r.spec_next_slash_id() == 1,
            r.spec_next_appeal_id() == 1,
    {
        SlashRegistry { slashes: Vec::new(), appeals: Vec::new(), next_slash_id: 1, next_appeal_id: 1 }
    }

    /// Record a slash; returns its identifier. The appeal window closes at
    /// the given number of blocks past the slash height, saturating.
    pub fn record_slash(&mut self, validator: [u8; 32], amount: u128, reason: SlashReason, block_height: u64, appeal_window_blocks: u64) -> (r: u64)
        requires
            old(self).wf(),
            old(self).spec_next_slash_id() < u64::MAX,
        ensures
            final(self).wf(),
            r == old(self).spec_next_slash_id(),
            final(self).spec_next_slash_id() == old(self).spec_next_slash_id() + 1,
            final(self).spec_appeals() == old(self).spec_appeals(),
            final(self).spec_next_appeal_id() == old(self).spec_next_appeal_id(),
            final(self).spec_slashes().len() == old(self).spec_slashes().len() + 1,
            forall|i: int|
                0 <= i < old(self).spec_slashes().len() ==> final(self).spec_slashes()[i] == old(
                    self,
                ).spec_slashes()[i],
            ({
                let last = final(self).spec_slashes().last();
                &&& last.id == r
                &&& last.validator == validator
                &&& last.amount == amount
                &&& last.reason == reason
                &&& last.block_height == block_height
                &&& last.appeal_deadline == crate::vm::spec_sat_add_u64(
                    block_height,
                    appeal_window_blocks,
                )
            }),
    {
        let id = self.next_slash_id;
        self.next_slash_id = self.next_slash_id + 1;
        let deadline = crate::vm::sat_add_u64(block_height, appeal_window_blocks);
        self.slashes.push(
            SlashRecord {
                id,
                validator,
                amount,
                reason,
                block_height,
                appeal_deadline: deadline,
            },
        );
        id
    }

    fn find_slash(&self, id: u64) -> (r: Option<usize>)
        ensures
            match r {
                Some(i) => i < self.spec_slashes().len() && self.spec_slashes()[i as int].id == id,
                None => forall|i: int|
                    0 <= i < self.spec_slashes().len() ==> (#[trigger] self.spec_slashes()[i]).id
                        != id,
            },
    {
        let mut i: usize = 0;
        let n = self.slashes.len();
        while i < n
            invariant
                0 <= i <= n,
                n == self.slashes@.len(),
                forall|j: int| 0 <= j < i ==> (#[trigger] self.slashes@[j]).id != id,
            decreases n - i,
        {
            if self.slashes[i].id == id {
                return Some(i);
            }
            i = i + 1;
        }
        None
    }

    /// Whether some appeal refers to a slash.
    fn has_appeal_for(&self, slash_id: u64) -> (r: bool)
        ensures
            r == exists|i: int|
                0 <= i < self.spec_appeals().len() && (#[trigger] self.spec_appeals()[i]).slash_id
                    == slash_id,
    {
        let mut i: usize = 0;
        let n = self.appeals.len();
        while i < n
            invariant
                0 <= i <= n,
                n == self.appeals@.len(),
                forall|j: int| 0 <= j < i ==> (#[trigger] self.appeals@[j]).slash_id != slash_id,
            decreases n - i,
        {
            if self.appeals[i].slash_id == slash_id {
                proof {
                    assert(self.appeals@[i as int].slash_id == slash_id);
                }
                return true;
            }
            i = i + 1;
        }
        false
    }

    /// Submit an appeal for a slash; at most one appeal per slash.
    pub fn submit_appeal(&mut self, slash_id: u64, evidence: Vec<u8>) -> (r: Result<
        u64,
        SlashingError,
    >)
        requires
            old(self).wf(),
            old(self).spec_next_appeal_id() < u64::MAX,
        ensures
            final(self).wf(),
            final(self).spec_slashes() == old(self).spec_slashes(),
            final(self).spec_next_slash_id() == old(self).spec_next_slash_id(),
            (forall|i: int|
                0 <= i < old(self).spec_slashes().len() ==> (#[trigger] old(
                    self,
                ).spec_slashes()[i]).id != slash_id) ==> r == Err::<u64, SlashingError>(
                SlashingError::SlashNotFound,
            ) && final(self).spec_appeals() == old(self).spec_appeals(),
            ((exists|i: int|
                0 <= i < old(self).spec_slashes().len() && (#[trigger] old(
                    self,
                ).spec_slashes()[i]).id == slash_id) && (exists|i: int|
                0 <= i < old(self).spec_appeals().len() && (#[trigger] old(
                    self,
                ).spec_appeals()[i]).slash_id == slash_id)) ==> r == Err::<u64, SlashingError>(
                SlashingError::AppealAlreadyExists,
            ) && final(self).spec_appeals() == old(self).spec_appeals(),
            ((exists|i: int|
                0 <= i < old(self).spec_slashes().len() && (#[trigger] old(
                    self,
                ).spec_slashes()[i]).id == slash_id) && (forall|i: int|
                0 <= i < old(self).spec_appeals().len() ==> (#[trigger] old(
                    self,
                ).spec_appeals()[i]).slash_id != slash_id)) ==> ({
                &&& r == Ok::<u64, SlashingError>(old(self).spec_next_appeal_id())
                &&& final(self).spec_appeals().len() == old(self).spec_appeals().len() + 1
                &&& forall|i: int|
                    0 <= i < old(self).spec_appeals().len() ==> final(self).spec_appeals()[i]
                        == old(self).spec_appeals()[i]
                &&& final(self).spec_appeals().last().slash_id == slash_id
                &&& final(self).spec_appeals().last().evidence@ == evidence@
                &&& final(self).spec_appeals().last().status == AppealStatus::Pending
                &&& final(self).spec_next_appeal_id() == old(self).spec_next_appeal_id() + 1
            }),
    {
        match self.find_slash(slash_id) {
            Some(_) => {},
            None => {
                return Err(SlashingError::SlashNotFound);
            },
        }
        if self.has_appeal_for(slash_id) {
            return Err(SlashingError::AppealAlreadyExists);
        }
        let id = self.next_appeal_id;
        self.next_appeal_id = self.next_appeal_id + 1;
        self.appeals.push(
            SlashingAppeal { id, slash_id, evidence, status: AppealStatus::Pending },
        );
        Ok(id)
    }

    /// Resolve a pending appeal: approved or rejected.
    pub fn resolve_appeal(&mut self, appeal_id: u64, approved: bool) -> (r: Result<
        (),
        SlashingError,
    >)
        requires
            old(self).wf(),
        ensures
            final(self).wf(),
            final(self).spec_slashes() == old(self).spec_slashes(),
            final(self).spec_next_slash_id() == old(self).spec_next_slash_id(),
            final(self).spec_next_appeal_id() == old(self).spec_next_appeal_id(),
            (forall|i: int|
                0 <= i < old(self).spec_appeals().len() ==> (#[trigger] old(
                    self,
                ).spec_appeals()[i]).id != appeal_id) ==> r == Err::<(), SlashingError>(
                SlashingError::AppealNotFound,
            ) && final(self).spec_appeals() == old(self).spec_appeals(),
            forall|i: int|
                0 <= i < old(self).spec_appeals().len() && (#[trigger] old(
                    self,
                ).spec_appeals()[i]).id == appeal_id ==> ({
                    let a = old(self).spec_appeals()[i];
                    if a.status != AppealStatus::Pending {
                        r == Err::<(), SlashingError>(SlashingError::AppealAlreadyResolved)
                            && final(self).spec_appeals() == old(self).spec_appeals()
                    } else {
                        r == Ok::<(), SlashingError>(()) && final(self).spec_appeals() == old(
                            self,
                        ).spec_appeals().update(
                            i,
                            SlashingAppeal {
                                status: if approved {
                                    AppealStatus::Approved
                                } else {
                                    AppealStatus::Rejected
                                },
                                ..a
                            },
                        )
                    }
                }),
    {
        let mut idx: usize = 0;
        let n = self.appeals.len();
        while idx < n
            invariant
                0 <= idx <= n,
                *self == *old(self),
                old(self).wf(),
                n == self.appeals@.len(),
                forall|j: int| 0 <= j < idx ==> (#[trigger] self.appeals@[j]).id != appeal_id,
            decreases n - idx,
        {
            if self.appeals[idx].id == appeal_id {
                if !matches!(self.appeals[idx].status, AppealStatus::Pending) {
                    return Err(SlashingError::AppealAlreadyResolved);
                }
                let a = self.appeals.remove(idx);
                let new_a = SlashingAppeal {
                    status: if approved {
                        AppealStatus::Approved
                    } else {
                        AppealStatus::Rejected
                    },
                    ..a
                };
                self.appeals.insert(idx, new_a);
                proof {
                    assert(self.appeals@ =~= old(self).spec_appeals().update(idx as int, new_a));
                }
                return Ok(());
            }
            idx = idx + 1;
        }
        Err(SlashingError::AppealNotFound)
    }

    /// Whether a slash was successfully appealed.
    pub fn is_slash_reversed(&self, slash_id: u64) -> (r: bool)
        ensures
            r == exists|i: int|
                0 <= i < self.spec_appeals().len() && (#[trigger] self.spec_appeals()[i]).slash_id
                    == slash_id && self.spec_appeals()[i].status == AppealStatus::Approved,
    {
        let mut i: usize = 0;
        let n = self.appeals.len();
        while i < n
            invariant
                0 <= i <= n,
                n == self.appeals@.len(),
                forall|j: int|
                    0 <= j < i ==> !((#[trigger] self.appeals@[j]).slash_id == slash_id
                        && self.appeals@[j].status == AppealStatus::Approved),
            decreases n - i,
        {
            let a = &self.appeals[i];
            if a.slash_id == slash_id && matches!(a.status, AppealStatus::Approved) {
                proof {
                    assert(self.appeals@[i as int].slash_id == slash_id && self.appeals@[
                    i as int].status == AppealStatus::Approved);
                }
                return true;
            }
            i = i + 1;
        }
        false
    }

    /// The slash record carrying an identifier, if any.
    pub fn get_slash(&self, id: u64) -> (r: Option<&SlashRecord>)
        ensures
            match r {
                Some(s) => exists|i: int|
                    0 <= i < self.spec_slashes().len() && (#[trigger] self.spec_slashes()[i]).id
                        == id && *s == self.spec_slashes()[i],
                None => forall|i: int|
                    0 <= i < self.spec_slashes().len() ==> (#[trigger] self.spec_slashes()[i]).id
                        != id,
            },
    {
        match self.find_slash(id) {
            Some(i) => Some(&self.slashes[i]),
            None => None,
        }
    }

    /// The appeal carrying an identifier, if any.
    pub fn get_appeal(&self, id: u64) -> (r: Option<&SlashingAppeal>)
        ensures
            match r {
                Some(a) => exists|i: int|
                    0 <= i < self.spec_appeals().len() && (#[trigger] self.spec_appeals()[i]).id
                        == id && *a == self.spec_appeals()[i],
                None => forall|i: int|
                    0 <= i < self.spec_appeals().len() ==> (#[trigger] self.spec_appeals()[i]).id
                        != id,
            },
    {
        let mut i: usize = 0;
        let n = self.appeals.len();
        while i < n
            invariant
                0 <= i <= n,
                n == self.appeals@.len(),
                forall|j: int| 0 <= j < i ==> (#[trigger] self.appeals@[j]).id != id,
            decreases n - i,
        {
            if self.appeals[i].id == id {
                return Some(&self.appeals[i]);
            }
            i = i + 1;
        }
        None
    }

    /// All slash records, in recording order.
    pub fn list_slashes(&self) -> (r: &Vec<SlashRecord>)
        ensures
            r@ == self.spec_slashes(),
    {
        &self.slashes
    }
}

impl Default for SlashRegistry {
    fn default() -> (r: Self)
        ensures
            r.wf(),
            r.spec_slashes().len() == 0,
            r.spec_appeals().len() == 0,
    {
        SlashRegistry::new()
    }
}

} // verus!
