//! The BFT round driver: leader rotation, propose, vote, commit on quorum,
//! equivocation detection, and round synchronization. A ghost model of the
//! driver carries the safety argument.

use vstd::prelude::*;

use crate::codec::spec_block_hash;
use crate::hash::Digest;
use crate::types::{id_eq, AccountId, Block};

verus! {

/// Consensus failures.
#[derive(Clone, Copy, Debug, PartialEq, Eq)]
pub enum ConsensusError {
    /// The proposal or vote does not fit the current round: wrong height,
    /// wrong proposer, unknown voter, no pending block, or a wrong hash.
    InvalidBlock,
    /// Voting every validator locally did not reach quorum.
    InsufficientVotes,
    /// A validator voted for two different blocks in the same round.
    Equivocation { validator: AccountId, round: u64 },
}

/// The mathematical state of the round driver.
#[verifier::ext_equal]
pub ghost struct ConsensusModel {
    pub validators: Seq<AccountId>,
    pub round: u64,
    pub pending: Option<Block>,
    pub votes: Map<AccountId, Seq<u8>>,
}

/// Maximum faulty replicas: f in n = 3f + 1.
pub open spec fn spec_f(n: int) -> int {
    (n - 1) / 3
}

/// Quorum size: 2f + 1.
pub open spec fn spec_quorum(n: int) -> int {
    2 * spec_f(n) + 1
}

/// The leader of a round: round-robin over the validator set.
pub open spec fn spec_leader(validators: Seq<AccountId>, round: u64) -> AccountId
    recommends
        validators.len() > 0,
{
    validators[round as int % validators.len() as int]
}

/// What a proposal does: accepted only from the round leader at the round's
/// height; on success it replaces any pending block and clears the votes.
pub open spec fn spec_propose(m: ConsensusModel, block: Block) -> (ConsensusModel, Result<
    (),
    ConsensusError,
>) {
    if block.header.height != m.round {
        (m, Err(ConsensusError::InvalidBlock))
    } else if block.header.proposer != spec_leader(m.validators, m.round) {
        (m, Err(ConsensusError::InvalidBlock))
    } else if !m.validators.contains(block.header.proposer) {
        (m, Err(ConsensusError::InvalidBlock))
    } else {
        (
            ConsensusModel {
                pending: Some(block),
                votes: Map::empty(),
                ..m
            },
            Ok(()),
        )
    }
}

/// What a vote does. A vote for a wrong hash by a validator that already
/// voted is equivocation; a matching vote is recorded (idempotently), and
/// when the votes reach quorum the block commits: the round advances and the
/// pending state clears.
pub open spec fn spec_vote(m: ConsensusModel, hash: Seq<u8>, voter: AccountId) -> (
    ConsensusModel,
    Result<Option<Seq<u8>>, ConsensusError>,
) {
    if !m.validators.contains(voter) {
        (m, Err(ConsensusError::InvalidBlock))
    } else {
        match m.pending {
            None => (m, Err(ConsensusError::InvalidBlock)),
            Some(block) => {
                if spec_block_hash(block.header) != hash {
                    if m.votes.contains_key(voter) {
                        (
                            m,
                            Err(ConsensusError::Equivocation { validator: voter, round: m.round }),
                        )
                    } else {
                        (m, Err(ConsensusError::InvalidBlock))
                    }
                } else {
                    let votes2 = m.votes.insert(voter, hash);
                    if votes2.dom().len() >= spec_quorum(m.validators.len() as int) {
                        (
                            ConsensusModel {
                                round: (m.round + 1) as u64,
                                pending: None,
                                votes: Map::empty(),
                                ..m
                            },
                            Ok(Some(spec_block_hash(block.header))),
                        )
                    } else {
                        (ConsensusModel { votes: votes2, ..m }, Ok(None))
                    }
                }
            },
        }
    }
}

/// A recorded vote: validator and the block hash it voted for.
struct VoteEntry {
    voter: AccountId,
    hash: Digest,
}

/// No two vote entries share a voter.
spec fn votes_distinct(s: Seq<VoteEntry>) -> bool {
    forall|i: int, j: int| 0 <= i < j < s.len() ==> s[i].voter != s[j].voter
}

/// The vote map an entry sequence denotes.
spec fn votes_map(s: Seq<VoteEntry>) -> Map<AccountId, Seq<u8>>
    decreases s.len(),
{
    if s.len() == 0 {
        Map::empty()
    } else {
        votes_map(s.drop_last()).insert(s.last().voter, s.last().hash.0@)
    }
}

proof fn lemma_votes_contains(s: Seq<VoteEntry>, id: AccountId)
    ensures
        votes_map(s).contains_key(id) <==> exists|i: int| 0 <= i < s.len() && s[i].voter == id,
    decreases s.len(),
{
    if s.len() > 0 {
        lemma_votes_contains(s.drop_last(), id);
        if id == s.last().voter {
            assert(s[s.len() - 1].voter == id);
        } else {
            if exists|i: int| 0 <= i < s.drop_last().len() && s.drop_last()[i].voter == id {
                let i = choose|i: int|
                    0 <= i < s.drop_last().len() && s.drop_last()[i].voter == id;
                assert(s[i].voter == id);
            }
            if exists|i: int| 0 <= i < s.len() && s[i].voter == id {
                let i = choose|i: int| 0 <= i < s.len() && s[i].voter == id;
                assert(i < s.len() - 1);
                assert(s.drop_last()[i].voter == id);
            }
        }
    }
}

/// With distinct voters the vote map's domain is exactly as large as the
/// entry list.
proof fn lemma_votes_count(s: Seq<VoteEntry>)
    requires
        votes_distinct(s),
    ensures
        votes_map(s).dom().finite(),
        votes_map(s).dom().len() == s.len(),
    decreases s.len(),
{
    if s.len() == 0 {
        assert(votes_map(s).dom() =~= Set::<AccountId>::empty());
    } else {
        assert(votes_distinct(s.drop_last())) by {
            assert(forall|a: int, b: int|
                0 <= a < b < s.drop_last().len() ==> s.drop_last()[a] == s[a] && s.drop_last()[b]
                    == s[b]);
        }
        lemma_votes_count(s.drop_last());
        lemma_votes_contains(s.drop_last(), s.last().voter);
        assert(forall|i: int| 0 <= i < s.len() - 1 ==> s[i].voter != s.last().voter);
        assert(!votes_map(s.drop_last()).contains_key(s.last().voter));
        assert(votes_map(s).dom() =~= votes_map(s.drop_last()).dom().insert(s.last().voter));
    }
}

/// The round driver.
pub struct ConsensusEngine {
    validators: Vec<AccountId>,
    round: u64,
    pending_block: Option<Block>,
    votes: Vec<VoteEntry>,
}

impl ConsensusEngine {
    /// The model this engine realizes.
    pub closed spec fn model(&self) -> ConsensusModel {
        ConsensusModel {
            validators: self.validators@,
            round: self.round,
            pending: self.pending_block,
            votes: votes_map(self.votes@),
        }
    }

    /// Well-formed: at least one validator, one vote per voter, and every
    /// recorded vote is for the pending block.
    pub closed spec fn wf(&self) -> bool {
        &&& self.validators@.len() > 0
        &&& votes_distinct(self.votes@)
        &&& forall|i: int|
            0 <= i < self.votes@.len() ==> (self.pending_block matches Some(b)
                && (#[trigger] self.votes@[i]).hash.0@ == spec_block_hash(b.header))
        &&& match self.pending_block {
            Some(b) => b.header.height == self.round,
            None => true,
        }
    }

    /// A well-formed engine's model satisfies the model invariant the safety
    /// argument rests on.
    pub proof fn lemma_wf_model_inv(&self)
        requires
            self.wf(),
        ensures
            model_inv(self.model()),
    {
    }

    /// A well-formed engine has at least one validator.
    pub proof fn lemma_wf_nonempty(&self)
        requires
            self.wf(),
        ensures
            self.model().validators.len() > 0,
    {
    }

    /// A driver over the given validator set, at round zero, with nothing
    /// pending.
    pub fn new(validators: Vec<AccountId>) -> (r: Self)
        requires
            validators@.len() > 0,
        ensures
            r.wf(),
            r.model() == (ConsensusModel {
                validators: validators@,
                round: 0,
                pending: None,
                votes: Map::empty(),
            }),
    {
        ConsensusEngine { validators, round: 0, pending_block: None, votes: Vec::new() }
    }

    /// A driver with a single validator, for local setups.
    pub fn single_validator(validator: AccountId) -> (r: Self)
        ensures
            r.wf(),
            r.model() == (ConsensusModel {
                validators: seq![validator],
                round: 0,
                pending: None,
                votes: Map::empty(),
            }),
    {
        let mut v: Vec<AccountId> = Vec::new();
        v.push(validator);
        proof {
            assert(v@ =~= seq![validator]);
        }
        ConsensusEngine::new(v)
    }

    /// Number of validators.
    pub fn num_validators(&self) -> (r: usize)
        ensures
            r == self.model().validators.len(),
    {
        self.validators.len()
    }

    /// The validator set.
    pub fn validators(&self) -> (r: &Vec<AccountId>)
        ensures
            r@ == self.model().validators,
    {
        &self.validators
    }

    /// The current round.
    pub fn round(&self) -> (r: u64)
        ensures
            r == self.model().round,
    {
        self.round
    }

    /// The leader of a round: `validators[round mod n]`.
    pub fn leader(&self, round: u64) -> (r: AccountId)
        requires
            self.wf(),
        ensures
            r == spec_leader(self.model().validators, round),
    {
        let n = self.validators.len();
        self.validators[(round % (n as u64)) as usize]
    }

    /// Propose a block for the current round. Only the round leader may
    /// propose, at exactly the round's height.
    pub fn propose(&mut self, block: Block) -> (r: Result<(), ConsensusError>)
        requires
            old(self).wf(),
        ensures
            final(self).wf(),
            (final(self).model(), r) == spec_propose(old(self).model(), block),
    {
        if block.header.height != self.round {
            return Err(ConsensusError::InvalidBlock);
        }
        let expected = self.leader(self.round);
        if !id_eq(&block.header.proposer, &expected) {
            return Err(ConsensusError::InvalidBlock);
        }
        if !crate::types::contains_id(&self.validators, &block.header.proposer) {
            return Err(ConsensusError::InvalidBlock);
        }
        self.pending_block = Some(block);
        self.votes = Vec::new();
        proof {
            assert(final(self).model() =~= spec_propose(old(self).model(), block).0);
        }
        Ok(())
    }

    /// Record a vote; returns the committed hash when the vote reaches
    /// quorum. A validator that votes for a different hash than it already
    /// voted for in this round equivocates.
    pub fn vote(&mut self, block_hash: Digest, validator: AccountId) -> (r: Result<
        Option<Digest>,
        ConsensusError,
    >)
        requires
            old(self).wf(),
            old(self).model().round < u64::MAX,
        ensures
            final(self).wf(),
            ({
                let (m2, sr) = spec_vote(old(self).model(), block_hash.0@, validator);
                &&& final(self).model() == m2
                &&& match (r, sr) {
                    (Ok(None), Ok(None)) => true,
                    (Ok(Some(h)), Ok(Some(hs))) => h.0@ == hs,
                    (Err(e), Err(es)) => e == es,
                    _ => false,
                }
            }),
    {
        if !crate::types::contains_id(&self.validators, &validator) {
            return Err(ConsensusError::InvalidBlock);
        }
        let pending_hash = match &self.pending_block {
            None => {
                return Err(ConsensusError::InvalidBlock);
            },
            Some(block) => block.hash(),
        };
        if !crate::hash::bytes32_eq(&pending_hash.0, &block_hash.0) {
            proof {
                lemma_votes_contains(self.votes@, validator);
            }
            let mut i: usize = 0;
            let nv = self.votes.len();
            while i < nv
                invariant
                    0 <= i <= nv,
                    *self == *old(self),
                    old(self).wf(),
                    old(self).model().validators.contains(validator),
                    match old(self).model().pending {
                        Some(b) => spec_block_hash(b.header) != block_hash.0@,
                        None => false,
                    },
                    nv == self.votes@.len(),
                    forall|j: int| 0 <= j < i ==> self.votes@[j].voter != validator,
                decreases nv - i,
            {
                if id_eq(&self.votes[i].voter, &validator) {
                    proof {
                        assert(self.votes@[i as int].voter == validator);
                        lemma_votes_contains(self.votes@, validator);
                    }
                    return Err(ConsensusError::Equivocation { validator, round: self.round });
                }
                i = i + 1;
            }
            proof {
                lemma_votes_contains(self.votes@, validator);
            }
            return Err(ConsensusError::InvalidBlock);
        }
        // Record the vote, idempotently for the same voter.
        proof {
            lemma_votes_contains(self.votes@, validator);
        }
        let mut found = false;
        let mut i: usize = 0;
        let nv = self.votes.len();
        while i < nv
            invariant
                0 <= i <= nv,
                *self == *old(self),
                old(self).wf(),
                nv == self.votes@.len(),
                found == exists|j: int| 0 <= j < i && self.votes@[j].voter == validator,
            decreases nv - i,
        {
            if id_eq(&self.votes[i].voter, &validator) {
                proof {
                    assert(self.votes@[i as int].voter == validator);
                }
                found = true;
            }
            i = i + 1;
        }
        let ghost vpre = self.votes@;
        if !found {
            proof {
                let s = self.votes@;
                let e = VoteEntry { voter: validator, hash: block_hash };
                assert(s.push(e).drop_last() =~= s);
                assert(forall|p: int, q: int|
                    0 <= p < q < s.push(e).len() ==> s.push(e)[p].voter == (if p < s.len() {
                        s[p].voter
                    } else {
                        e.voter
                    }) && s.push(e)[q].voter == (if q < s.len() {
                        s[q].voter
                    } else {
                        e.voter
                    }));
            }
            self.votes.push(VoteEntry { voter: validator, hash: block_hash });
        } else {
            proof {
                // The voter's recorded entry was recorded for the pending
                // block, so it already carries this very hash, and the
                // insert is a no-op.
                let j = choose|j: int| 0 <= j < vpre.len() && vpre[j].voter == validator;
                lemma_votes_at(vpre, j);
                assert(vpre[j].hash.0@ == block_hash.0@);
                assert(votes_map(vpre).insert(validator, block_hash.0@) =~= votes_map(vpre));
            }
        }
        proof {
            lemma_votes_count(self.votes@);
        }
        let n = self.validators.len();
        let quorum = 2 * ((n - 1) / 3) + 1;
        if self.votes.len() >= quorum {
            self.round = self.round + 1;
            self.pending_block = None;
            self.votes = Vec::new();
            proof {
                assert(final(self).model() =~= spec_vote(
                    old(self).model(),
                    block_hash.0@,
                    validator,
                ).0);
            }
            return Ok(Some(pending_hash));
        }
        proof {
            assert(final(self).model() =~= spec_vote(
                old(self).model(),
                block_hash.0@,
                validator,
            ).0);
        }
        Ok(None)
    }

    /// Force the round counter to a height and clear the pending state; used
    /// after importing a block produced elsewhere.
    pub fn sync_round(&mut self, height: u64)
        requires
            old(self).wf(),
        ensures
            final(self).wf(),
            final(self).model() == (ConsensusModel {
                round: height,
                pending: None,
                votes: Map::empty(),
                ..old(self).model()
            }),
    {
        self.round = height;
        self.pending_block = None;
        self.votes = Vec::new();
        proof {
            assert(final(self).model() =~= (ConsensusModel {
                round: height,
                pending: None,
                votes: Map::empty(),
                ..old(self).model()
            }));
        }
    }
}

proof fn lemma_votes_at(s: Seq<VoteEntry>, i: int)
    requires
        votes_distinct(s),
        0 <= i < s.len(),
    ensures
        votes_map(s).contains_key(s[i].voter),
        votes_map(s)[s[i].voter] == s[i].hash.0@,
    decreases s.len(),
{
    if i < s.len() - 1 {
        assert(votes_distinct(s.drop_last())) by {
            assert(forall|a: int, b: int|
                0 <= a < b < s.drop_last().len() ==> s.drop_last()[a] == s[a] && s.drop_last()[b]
                    == s[b]);
        }
        assert(s.drop_last()[i] == s[i]);
        lemma_votes_at(s.drop_last(), i);
        assert(s[i].voter != s.last().voter);
    }
}


/// The model invariant: a pending block sits at the current round's height.
pub open spec fn model_inv(m: ConsensusModel) -> bool {
    match m.pending {
        Some(b) => b.header.height == m.round,
        None => true,
    }
}

/// An operation of the round driver (round synchronization aside).
pub ghost enum ConsensusOp {
    Propose(Block),
    Vote(Seq<u8>, AccountId),
}

/// One driver step: the successor model, and the height of the block it
/// commits, if it commits one.
pub open spec fn spec_step(m: ConsensusModel, op: ConsensusOp) -> (ConsensusModel, Option<u64>) {
    match op {
        ConsensusOp::Propose(b) => (spec_propose(m, b).0, None),
        ConsensusOp::Vote(h, v) => {
            let (m2, r) = spec_vote(m, h, v);
            match r {
                Ok(Some(_)) => (m2, Some(m.round)),
                _ => (m2, None),
            }
        },
    }
}

/// The model after the first `k` operations.
pub open spec fn spec_state_at(m: ConsensusModel, ops: Seq<ConsensusOp>, k: int) -> ConsensusModel
    decreases k,
{
    if k <= 0 {
        m
    } else {
        spec_step(spec_state_at(m, ops, k - 1), ops[k - 1]).0
    }
}

/// The height the `k`-th operation commits, if it commits one.
pub open spec fn spec_commit_at(m: ConsensusModel, ops: Seq<ConsensusOp>, k: int) -> Option<u64> {
    spec_step(spec_state_at(m, ops, k), ops[k]).1
}

/// One step never lowers the round, raises it by at most one, commits only
/// at the current round (and then raises it past it), and preserves the
/// model invariant.
proof fn lemma_step_round(m: ConsensusModel, op: ConsensusOp)
    requires
        model_inv(m),
        m.round < u64::MAX,
    ensures
        model_inv(spec_step(m, op).0),
        m.round <= spec_step(m, op).0.round <= m.round + 1,
        spec_step(m, op).1 matches Some(h) ==> h == m.round && spec_step(m, op).0.round == m.round
            + 1,
{
}

/// Along a trace with enough round headroom, the round never decreases and
/// grows by at most one per step.
proof fn lemma_rounds_mono(m: ConsensusModel, ops: Seq<ConsensusOp>, k: int)
    requires
        model_inv(m),
        0 <= k <= ops.len(),
        m.round + ops.len() <= u64::MAX,
    ensures
        model_inv(spec_state_at(m, ops, k)),
        m.round <= spec_state_at(m, ops, k).round <= m.round + k,
    decreases k,
{
    if k > 0 {
        lemma_rounds_mono(m, ops, k - 1);
        lemma_step_round(spec_state_at(m, ops, k - 1), ops[k - 1]);
    }
}

/// Consensus safety: once a block commits at some round, every later commit
/// in the same trace of proposals and votes is at a strictly greater round;
/// no second block can ever commit at the same round.
pub proof fn lemma_no_second_commit_at_round(m: ConsensusModel, ops: Seq<ConsensusOp>, i: int, j: int, hi: u64, hj: u64)
    requires
        model_inv(m),
        m.round + ops.len() <= u64::MAX,
        0 <= i < j < ops.len(),
        spec_commit_at(m, ops, i) == Some(hi),
        spec_commit_at(m, ops, j) == Some(hj),
    ensures
        hj > hi,
    decreases j,
{
    lemma_rounds_mono(m, ops, i);
    lemma_step_round(spec_state_at(m, ops, i), ops[i]);
    lemma_rounds_mono(m, ops, j);
    lemma_step_round(spec_state_at(m, ops, j), ops[j]);
    // The round right after step i is hi + 1; it never decreases up to j.
    assert(spec_state_at(m, ops, i + 1).round == hi + 1);
    lemma_rounds_between(m, ops, i + 1, j);
}

/// The round at a later point is at least the round at an earlier point.
proof fn lemma_rounds_between(m: ConsensusModel, ops: Seq<ConsensusOp>, a: int, b: int)
    requires
        model_inv(m),
        m.round + ops.len() <= u64::MAX,
        0 <= a <= b <= ops.len(),
    ensures
        spec_state_at(m, ops, b).round >= spec_state_at(m, ops, a).round,
    decreases b - a,
{
    if b > a {
        lemma_rounds_between(m, ops, a, b - 1);
        lemma_rounds_mono(m, ops, b - 1);
        lemma_step_round(spec_state_at(m, ops, b - 1), ops[b - 1]);
    }
}

/// Leader rotation is exact: the leader of round `r` is `validators[r mod
/// n]`, the rotation has period `n`, and no two of `n` consecutive rounds
/// share a leader position.
pub proof fn lemma_leader_rotation(validators: Seq<AccountId>, r: u64)
    requires
        validators.len() > 0,
        r + validators.len() <= u64::MAX,
    ensures
        spec_leader(validators, (r + validators.len()) as u64) == spec_leader(validators, r),
        forall|k1: int, k2: int|
            0 <= k1 < k2 < validators.len() ==> #[trigger] (((r + k1) as int) % (
            validators.len() as int)) != #[trigger] (((r + k2) as int) % (
            validators.len() as int)),
{
    let n = validators.len() as int;
    vstd::arithmetic::div_mod::lemma_mod_multiples_vanish(1, r as int, n);
    assert((r + n) % n == r as int % n);
    assert forall|k1: int, k2: int|
        0 <= k1 < k2 < n implies #[trigger] (((r + k1) as int) % n) != #[trigger] (((r
        + k2) as int) % n) by {
        let a = r + k1;
        let b = r + k2;
        vstd::arithmetic::div_mod::lemma_fundamental_div_mod(a, n);
        vstd::arithmetic::div_mod::lemma_fundamental_div_mod(b, n);
        vstd::arithmetic::div_mod::lemma_mod_bound(a, n);
        vstd::arithmetic::div_mod::lemma_mod_bound(b, n);
        if a % n == b % n {
            let da = a / n;
            let db = b / n;
            assert(n * db - n * da == n * (db - da)) by (nonlinear_arith);
            assert(b - a == n * (db - da));
            assert(0 < b - a < n);
            if db - da >= 1 {
                vstd::arithmetic::mul::lemma_mul_inequality(1, db - da, n);
                assert(n * (db - da) == (db - da) * n) by (nonlinear_arith);
                assert(false);
            } else if db - da <= 0 {
                vstd::arithmetic::mul::lemma_mul_inequality(db - da, 0, n);
                assert(n * (db - da) == (db - da) * n) by (nonlinear_arith);
                assert(false);
            } else {
                assert(false);
            }
        }
    }
}


impl ConsensusEngine {
    /// Propose and then cast every validator's vote locally, in validator
    /// order; used in single- and few-validator setups. With a duplicate-free
    /// validator set a successful proposal always commits.
    pub fn propose_and_commit(&mut self, block: Block) -> (r: Result<Digest, ConsensusError>)
        requires
            old(self).wf(),
            old(self).model().round < u64::MAX,
        ensures
            final(self).wf(),
            spec_propose(old(self).model(), block).1 matches Err(e2) ==> r matches Err(e) && e
                == e2 && final(self).model() == old(self).model(),
            ({
                spec_propose(old(self).model(), block).1 matches Ok(_) ==> match r {
                    Ok(h) => {
                        &&& h.0@ == spec_block_hash(block.header)
                        &&& final(self).model().round == old(self).model().round + 1
                        &&& final(self).model().pending matches None
                        &&& final(self).model().votes =~= Map::<AccountId, Seq<u8>>::empty()
                        &&& final(self).model().validators == old(self).model().validators
                    },
                    Err(e) => e == ConsensusError::InsufficientVotes,
                }
            }),
            old(self).model().validators.no_duplicates() && (spec_propose(
                old(self).model(),
                block,
            ).1 matches Ok(_)) ==> r matches Ok(_),
    {
        let block_hash = block.hash();
        match self.propose(block) {
            Err(e) => {
                return Err(e);
            },
            Ok(()) => {},
        }
        let ghost m0 = self.model();
        let ghost vals = self.model().validators;
        let n = self.validators.len();
        let ghost q = spec_quorum(n as int);
        let mut i: usize = 0;
        while i < n
            invariant
                0 <= i <= n,
                self.wf(),
                n == self.model().validators.len(),
                vals == self.model().validators,
                vals == m0.validators,
                self.model().round == m0.round,
                m0.round < u64::MAX,
                self.model().pending == m0.pending,
                spec_propose(old(self).model(), block).1 matches Ok(_),
                m0 == spec_propose(old(self).model(), block).0,
                m0.round == old(self).model().round,
                m0.validators == old(self).model().validators,
                m0.pending == Some(block),
                block_hash.0@ == spec_block_hash(block.header),
                q == spec_quorum(n as int),
                self.model().votes.dom().finite(),
                self.model().votes.dom().len() < q,
                vals.no_duplicates() ==> self.model().votes.dom().len() == i,
                vals.no_duplicates() ==> (forall|id: AccountId|
                    #[trigger] self.model().votes.contains_key(id) <==> exists|j: int|
                        0 <= j < i && vals[j] == id),
            decreases n - i,
        {
            let voter = self.validators[i];
            proof {
                assert(vals.contains(vals[i as int]));
            }
            let ghost spec_vote_pre_votes = self.model().votes;
            let res = self.vote(block_hash, voter);
            match res {
                Ok(Some(h)) => {
                    proof {
                        assert(self.model().votes =~= Map::<AccountId, Seq<u8>>::empty());
                    }
                    return Ok(h);
                },
                Ok(None) => {
                    proof {
                        if vals.no_duplicates() {
                            let mpre = spec_vote_pre_votes;
                            assert(!mpre.contains_key(voter)) by {
                                if mpre.contains_key(voter) {
                                    let j = choose|j: int| 0 <= j < i && vals[j] == voter;
                                    assert(vals[j] == vals[i as int]);
                                }
                            }
                            vstd::set::axiom_set_insert_len(mpre.dom(), voter);
                            assert(self.model().votes.dom() =~= mpre.dom().insert(voter));
                            assert forall|id: AccountId|
                                #[trigger] self.model().votes.contains_key(id) <==> exists|j: int|
                                    0 <= j < i + 1 && vals[j] == id by {
                                if self.model().votes.contains_key(id) {
                                    if id == voter {
                                        assert(vals[i as int] == id);
                                    } else {
                                        let j = choose|j: int| 0 <= j < i && vals[j] == id;
                                        assert(vals[j] == id);
                                    }
                                }
                                if exists|j: int| 0 <= j < i + 1 && vals[j] == id {
                                    let j = choose|j: int| 0 <= j < i + 1 && vals[j] == id;
                                    if j < i {
                                        assert(mpre.contains_key(id));
                                    }
                                }
                            }
                        }
                    }
                },
                Err(_) => {
                    proof {
                        assert(false);
                    }
                    return Err(ConsensusError::InsufficientVotes);
                },
            }
            i = i + 1;
        }
        proof {
            if vals.no_duplicates() {
                assert(self.model().votes.dom().len() == n);
                vstd::arithmetic::div_mod::lemma_fundamental_div_mod((n - 1) as int, 3);
                vstd::arithmetic::div_mod::lemma_mod_bound((n - 1) as int, 3);
                assert(2 * ((n - 1) as int / 3) + 1 <= n as int);
                assert(false);
            }
        }
        Err(ConsensusError::InsufficientVotes)
    }
}

impl Default for ConsensusEngine {
    /// A single-validator driver over the all-ones identifier.
    fn default() -> (r: Self)
        ensures
            r.wf(),
    {
        ConsensusEngine::single_validator(AccountId([1u8; 32]))
    }
}

} // verus!
