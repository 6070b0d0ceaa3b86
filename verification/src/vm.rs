//! Transaction execution: per-transaction semantics for transfers, bonding,
//! unbonding, contract deployment and contract calls, against an abstract
//! account state.

use vstd::prelude::*;

use crate::codec::spec_enc_u64;
use crate::hash::{blake3_of, hash_bytes, push_bytes32};
use crate::types::{Account, AccountId, AccountState, Transaction, TransactionPayload};

verus! {

/// Gas charged for a transfer.
pub const GAS_PER_TRANSFER: u64 = 21_000;
/// Gas limit of a contract call.
pub const GAS_PER_CONTRACT_CALL: u64 = 100_000;
/// Gas charged for a contract deployment.
pub const GAS_PER_CONTRACT_DEPLOY: u64 = 200_000;
/// Gas charged for bonding stake.
pub const GAS_PER_BOND: u64 = 21_000;
/// Gas charged for unbonding stake.
pub const GAS_PER_UNBOND: u64 = 21_000;

/// Execution failures. Errors are values; the caller decides what to revert.
#[derive(Clone, Copy, Debug, PartialEq, Eq, Structural)]
pub enum VmError {
    /// The sender (or a called contract) does not exist.
    AccountNotFound,
    /// The sender cannot cover the amount (or, for unbond, the stake).
    InsufficientBalance,
    /// The sender's nonce cannot be incremented.
    NonceOverflow,
    /// The transaction's nonce does not match the sender's.
    InvalidNonce { expected: u64, got: u64 },
    /// The payload kind is not handled by this entry point.
    NotImplemented,
    /// The gas limit was exhausted.
    OutOfGas,
    /// A stack operation had too few operands.
    StackUnderflow,
    /// Unknown opcode, or a PUSH immediate running past the end of the code.
    InvalidBytecode,
    /// A jump destination outside the code.
    InvalidJump,
}

/// Saturating addition on u128.
pub open spec fn spec_sat_add_u128(a: u128, b: u128) -> u128 {
    if a + b > u128::MAX {
        u128::MAX
    } else {
        (a + b) as u128
    }
}

/// Saturating addition on u128.
pub fn sat_add_u128(a: u128, b: u128) -> (r: u128)
    ensures
        r == spec_sat_add_u128(a, b),
{
    if b > u128::MAX - a {
        u128::MAX
    } else {
        a + b
    }
}

/// Saturating addition on u64.
pub open spec fn spec_sat_add_u64(a: u64, b: u64) -> u64 {
    if a + b > u64::MAX {
        u64::MAX
    } else {
        (a + b) as u64
    }
}

/// Saturating addition on u64.
pub fn sat_add_u64(a: u64, b: u64) -> (r: u64)
    ensures
        r == spec_sat_add_u64(a, b),
{
    if b > u64::MAX - a {
        u64::MAX
    } else {
        a + b
    }
}

/// What a transfer does to the account map: validate sender, nonce, balance
/// and nonce headroom, then debit the sender and credit the recipient,
/// creating it if absent. The credit saturates. A self-transfer debits first
/// and then credits the already-debited state.
pub open spec fn spec_transfer(
    m: Map<AccountId, AccountState>,
    sender: AccountId,
    nonce: u64,
    to: AccountId,
    amount: u128,
) -> Result<Map<AccountId, AccountState>, VmError> {
    if !m.contains_key(sender) {
        Err(VmError::AccountNotFound)
    } else if m[sender].nonce != nonce {
        Err(VmError::InvalidNonce { expected: m[sender].nonce, got: nonce })
    } else if m[sender].balance < amount {
        Err(VmError::InsufficientBalance)
    } else if m[sender].nonce == u64::MAX {
        Err(VmError::NonceOverflow)
    } else {
        let debited = AccountState {
            balance: (m[sender].balance - amount) as u128,
            nonce: (m[sender].nonce + 1) as u64,
            stake: m[sender].stake,
        };
        let m1 = m.insert(sender, debited);
        let credited = if m1.contains_key(to) {
            AccountState {
                balance: spec_sat_add_u128(m1[to].balance, amount),
                nonce: m1[to].nonce,
                stake: m1[to].stake,
            }
        } else {
            AccountState { balance: amount, nonce: 0, stake: 0 }
        };
        Ok(m1.insert(to, credited))
    }
}

/// What bonding does: validate, then move the amount from balance to stake
/// (the stake credit saturates) and bump the nonce.
pub open spec fn spec_bond(m: Map<AccountId, AccountState>, sender: AccountId, nonce: u64, amount: u128) -> Result<Map<AccountId, AccountState>, VmError> {
    if !m.contains_key(sender) {
        Err(VmError::AccountNotFound)
    } else if m[sender].nonce != nonce {
        Err(VmError::InvalidNonce { expected: m[sender].nonce, got: nonce })
    } else if m[sender].balance < amount {
        Err(VmError::InsufficientBalance)
    } else if m[sender].nonce == u64::MAX {
        Err(VmError::NonceOverflow)
    } else {
        Ok(m.insert(sender, AccountState {
            balance: (m[sender].balance - amount) as u128,
            nonce: (m[sender].nonce + 1) as u64,
            stake: spec_sat_add_u128(m[sender].stake, amount),
        }))
    }
}

/// What unbonding does: validate against the stake, then move the amount
/// from stake back to balance (the balance credit saturates) and bump the
/// nonce.
pub open spec fn spec_unbond(m: Map<AccountId, AccountState>, sender: AccountId, nonce: u64, amount: u128) -> Result<Map<AccountId, AccountState>, VmError> {
    if !m.contains_key(sender) {
        Err(VmError::AccountNotFound)
    } else if m[sender].nonce != nonce {
        Err(VmError::InvalidNonce { expected: m[sender].nonce, got: nonce })
    } else if m[sender].stake < amount {
        Err(VmError::InsufficientBalance)
    } else if m[sender].nonce == u64::MAX {
        Err(VmError::NonceOverflow)
    } else {
        Ok(m.insert(sender, AccountState {
            balance: spec_sat_add_u128(m[sender].balance, amount),
            nonce: (m[sender].nonce + 1) as u64,
            stake: (m[sender].stake - amount) as u128,
        }))
    }
}

/// The address a deployed contract receives: the digest of the deployer and
/// the nonce before increment, little-endian.
pub open spec fn spec_contract_address(sender: AccountId, nonce: u64) -> Seq<u8> {
    blake3_of(sender.0@ + spec_enc_u64(nonce))
}

/// Derive the address for a contract deployed by `sender` at `nonce`.
pub fn derive_contract_address(sender: &AccountId, nonce: u64) -> (r: AccountId)
    ensures
        r.0@ == spec_contract_address(*sender, nonce),
{
    let mut buf: Vec<u8> = Vec::new();
    push_bytes32(&mut buf, &sender.0);
    crate::codec::push_u64(&mut buf, nonce);
    proof {
        assert(buf@ =~= sender.0@ + spec_enc_u64(nonce));
    }
    AccountId(hash_bytes(buf.as_slice()).0)
}

/// Minimal account state access for transfer execution, implemented by the
/// main store and by the isolated parallel views.
pub trait TransferState {
    /// The account map this state holds.
    spec fn t_map(&self) -> Map<AccountId, AccountState>;

    /// Internal invariant.
    spec fn t_inv(&self) -> bool;

    /// Whatever the implementor holds besides accounts; account writes leave
    /// it unchanged.
    spec fn t_frame(&self) -> (Map<AccountId, Seq<u8>>, Map<(AccountId, Seq<u8>), Seq<u8>>);

    /// Read an account.
    fn get(&self, id: &AccountId) -> (r: Option<AccountState>)
        requires
            self.t_inv(),
        ensures
            match r {
                Some(st) => self.t_map().contains_key(*id) && st == self.t_map()[*id],
                None => !self.t_map().contains_key(*id),
            },
    ;

    /// Mutable handle for an existing account.
    fn get_mut(&mut self, id: &AccountId) -> (r: Option<&mut AccountState>)
        requires
            old(self).t_inv(),
        ensures
            match r {
                Some(p) => {
                    &&& old(self).t_map().contains_key(*id)
                    &&& *p == old(self).t_map()[*id]
                    &&& final(self).t_inv()
                    &&& final(self).t_map() == old(self).t_map().insert(*id, *final(p))
                },
                None => !old(self).t_map().contains_key(*id) && final(self).t_map() == old(
                    self,
                ).t_map() && final(self).t_inv(),
            },
            final(self).t_frame() == old(self).t_frame(),
    ;

    /// Upsert an account.
    fn insert(&mut self, account: Account)
        requires
            old(self).t_inv(),
        ensures
            final(self).t_inv(),
            final(self).t_map() == old(self).t_map().insert(account.id, account.state),
            final(self).t_frame() == old(self).t_frame(),
    ;
}

impl TransferState for crate::store::StateStore {
    open spec fn t_map(&self) -> Map<AccountId, AccountState> {
        self.accounts()
    }

    open spec fn t_inv(&self) -> bool {
        self.wf()
    }

    open spec fn t_frame(&self) -> (Map<AccountId, Seq<u8>>, Map<(AccountId, Seq<u8>), Seq<u8>>) {
        (self.code(), self.storage())
    }

    fn get(&self, id: &AccountId) -> (r: Option<AccountState>) {
        match crate::store::StateStore::get(self, id) {
            Some(st) => Some(*st),
            None => None,
        }
    }

    fn get_mut(&mut self, id: &AccountId) -> (r: Option<&mut AccountState>) {
        crate::store::StateStore::get_mut(self, id)
    }

    fn insert(&mut self, account: Account) {
        crate::store::StateStore::insert(self, account);
    }
}

impl TransferState for crate::parallel::ExecutionView {
    open spec fn t_map(&self) -> Map<AccountId, AccountState> {
        self@
    }

    open spec fn t_inv(&self) -> bool {
        self.wf()
    }

    open spec fn t_frame(&self) -> (Map<AccountId, Seq<u8>>, Map<(AccountId, Seq<u8>), Seq<u8>>) {
        (Map::empty(), Map::empty())
    }

    fn get(&self, id: &AccountId) -> (r: Option<AccountState>) {
        crate::parallel::ExecutionView::get(self, id)
    }

    fn get_mut(&mut self, id: &AccountId) -> (r: Option<&mut AccountState>) {
        crate::parallel::ExecutionView::get_mut(self, id)
    }

    fn insert(&mut self, account: Account) {
        crate::parallel::ExecutionView::insert(self, account);
    }
}

/// What executing a transaction as a transfer returns.
pub open spec fn spec_execute_transfer_tx(m: Map<AccountId, AccountState>, tx: Transaction) -> Result<Map<AccountId, AccountState>, VmError> {
    if !m.contains_key(tx.sender) {
        Err(VmError::AccountNotFound)
    } else if m[tx.sender].nonce != tx.nonce {
        Err(VmError::InvalidNonce { expected: m[tx.sender].nonce, got: tx.nonce })
    } else {
        match tx.payload {
            TransactionPayload::Transfer { to, amount } => spec_transfer(m, tx.sender, tx.nonce, to, amount),
            _ => Err(VmError::NotImplemented),
        }
    }
}

/// The account identifier with the given 32 bytes.
pub open spec fn account_id_of(bytes: Seq<u8>) -> AccountId {
    choose|id: AccountId| id.0@ == bytes
}

/// The machine state a contract call starts from: empty stack, the calldata
/// at the bottom of memory, no gas spent.
pub open spec fn spec_call_start(sto: Map<(AccountId, Seq<u8>), Seq<u8>>, calldata: Seq<u8>) -> crate::interpreter::VmState {
    crate::interpreter::spec_start(
        0,
        Seq::empty(),
        Seq::empty(),
        0,
        sto,
        None,
        calldata,
    )
}

/// What executing one transaction does to accounts, contract code, contract
/// storage, and how much gas it uses. On an error nothing changes.
pub open spec fn spec_execute_tx(
    acc: Map<AccountId, AccountState>,
    code: Map<AccountId, Seq<u8>>,
    sto: Map<(AccountId, Seq<u8>), Seq<u8>>,
    tx: Transaction,
) -> Result<
    (Map<AccountId, AccountState>, Map<AccountId, Seq<u8>>, Map<(AccountId, Seq<u8>), Seq<u8>>, u64),
    VmError,
> {
    if !acc.contains_key(tx.sender) {
        Err(VmError::AccountNotFound)
    } else if acc[tx.sender].nonce != tx.nonce {
        Err(VmError::InvalidNonce { expected: acc[tx.sender].nonce, got: tx.nonce })
    } else {
        match tx.payload {
            TransactionPayload::Transfer { to, amount } => match spec_transfer(acc, tx.sender, tx.nonce, to, amount) {
                Ok(a) => Ok((a, code, sto, GAS_PER_TRANSFER)),
                Err(e) => Err(e),
            },
            TransactionPayload::Bond { amount } => match spec_bond(acc, tx.sender, tx.nonce, amount) {
                Ok(a) => Ok((a, code, sto, GAS_PER_BOND)),
                Err(e) => Err(e),
            },
            TransactionPayload::Unbond { amount } => match spec_unbond(acc, tx.sender, tx.nonce, amount) {
                Ok(a) => Ok((a, code, sto, GAS_PER_UNBOND)),
                Err(e) => Err(e),
            },
            TransactionPayload::ContractDeploy { bytecode } => {
                if acc[tx.sender].nonce == u64::MAX {
                    Err(VmError::NonceOverflow)
                } else {
                    let bumped = AccountState {
                        balance: acc[tx.sender].balance,
                        nonce: (acc[tx.sender].nonce + 1) as u64,
                        stake: acc[tx.sender].stake,
                    };
                    let addr = account_id_of(spec_contract_address(tx.sender, tx.nonce));
                    Ok((
                        acc.insert(tx.sender, bumped).insert(addr, AccountState { balance: 0, nonce: 0, stake: 0 }),
                        code.insert(addr, bytecode@),
                        sto,
                        GAS_PER_CONTRACT_DEPLOY,
                    ))
                }
            },
            TransactionPayload::ContractCall { contract, calldata } => {
                if acc[tx.sender].nonce == u64::MAX {
                    Err(VmError::NonceOverflow)
                } else if !code.contains_key(contract) {
                    Err(VmError::AccountNotFound)
                } else {
                    let bumped = AccountState {
                        balance: acc[tx.sender].balance,
                        nonce: (acc[tx.sender].nonce + 1) as u64,
                        stake: acc[tx.sender].stake,
                    };
                    match crate::interpreter::spec_run(code[contract], contract, spec_call_start(sto, calldata@), GAS_PER_CONTRACT_CALL) {
                        crate::interpreter::RunOutcome::Done(st) => Ok((
                            acc.insert(tx.sender, bumped),
                            code,
                            st.storage,
                            st.gas_used,
                        )),
                        crate::interpreter::RunOutcome::Fail(e, _) => Err(e),
                    }
                }
            },
        }
    }
}

/// The virtual machine.
pub struct Vm {}

impl Vm {
    pub fn new() -> (r: Self)
        ensures
            true,
    {
        Vm {  }
    }

    /// Execute a transfer transaction against any transfer state. On error
    /// the state is unchanged.
    pub fn execute_transfer<S: TransferState>(&self, tx: &Transaction, state: &mut S) -> (r:
        Result<u64, VmError>)
        requires
            old(state).t_inv(),
        ensures
            final(state).t_inv(),
            final(state).t_frame() == old(state).t_frame(),
            match r {
                Ok(gas) => {
                    &&& gas == GAS_PER_TRANSFER
                    &&& spec_execute_transfer_tx(old(state).t_map(), *tx) matches Ok(mm) && mm
                        == final(state).t_map()
                },
                Err(e) => {
                    &&& spec_execute_transfer_tx(old(state).t_map(), *tx) matches Err(e2) && e2
                        == e
                    &&& final(state).t_map() == old(state).t_map()
                },
            },
    {
        let sender_st = match state.get(&tx.sender) {
            Some(st) => st,
            None => {
                return Err(VmError::AccountNotFound);
            },
        };
        if sender_st.nonce != tx.nonce {
            return Err(VmError::InvalidNonce { expected: sender_st.nonce, got: tx.nonce });
        }
        let (to, amount) = match &tx.payload {
            TransactionPayload::Transfer { to, amount } => (*to, *amount),
            _ => {
                return Err(VmError::NotImplemented);
            },
        };
        if sender_st.balance < amount {
            return Err(VmError::InsufficientBalance);
        }
        if sender_st.nonce == u64::MAX {
            return Err(VmError::NonceOverflow);
        }
        let debited = AccountState {
            balance: sender_st.balance - amount,
            nonce: sender_st.nonce + 1,
            stake: sender_st.stake,
        };
        state.insert(Account { id: tx.sender, state: debited });
        match state.get(&to) {
            Some(t) => {
                let credited = AccountState {
                    balance: sat_add_u128(t.balance, amount),
                    nonce: t.nonce,
                    stake: t.stake,
                };
                state.insert(Account { id: to, state: credited });
            },
            None => {
                state.insert(Account { id: to, state: AccountState { balance: amount, nonce: 0, stake: 0 } });
            },
        }
        Ok(GAS_PER_TRANSFER)
    }
}

/// A byte-for-byte copy of a byte vector.
fn clone_bytes(v: &Vec<u8>) -> (r: Vec<u8>)
    ensures
        r@ == v@,
{
    let mut out: Vec<u8> = Vec::new();
    let mut i: usize = 0;
    while i < v.len()
        invariant
            0 <= i <= v@.len(),
            out@ == v@.take(i as int),
        decreases v@.len() - i,
    {
        out.push(v[i]);
        proof {
            assert(v@.take(i as int).push(v@[i as int]) =~= v@.take(i as int + 1));
        }
        i = i + 1;
    }
    proof {
        assert(v@.take(v@.len() as int) =~= v@);
    }
    out
}

impl Vm {
    /// Execute one transaction against the state store. On an error the
    /// store is unchanged; the gas returned on success is fixed per payload
    /// kind, except for contract calls, which report the interpreter's use.
    pub fn execute(&self, tx: &Transaction, state: &mut crate::store::StateStore) -> (r: Result<
        u64,
        VmError,
    >)
        requires
            old(state).wf(),
        ensures
            final(state).wf(),
            match r {
                Ok(gas) => {
                    &&& spec_execute_tx(
                        old(state).accounts(),
                        old(state).code(),
                        old(state).storage(),
                        *tx,
                    ) matches Ok(q) && final(state).accounts() == q.0 && final(state).code() == q.1
                        && final(state).storage() == q.2 && gas == q.3
                },
                Err(e) => {
                    &&& spec_execute_tx(
                        old(state).accounts(),
                        old(state).code(),
                        old(state).storage(),
                        *tx,
                    ) matches Err(e2) && e2 == e
                    &&& final(state).accounts() == old(state).accounts()
                    &&& final(state).code() == old(state).code()
                    &&& final(state).storage() == old(state).storage()
                },
            },
    {
        let sender_st = match crate::store::StateStore::get(state, &tx.sender) {
            Some(st) => *st,
            None => {
                return Err(VmError::AccountNotFound);
            },
        };
        if sender_st.nonce != tx.nonce {
            return Err(VmError::InvalidNonce { expected: sender_st.nonce, got: tx.nonce });
        }
        match &tx.payload {
            TransactionPayload::Transfer { .. } => {
                match self.execute_transfer(tx, state) {
                    Ok(gas) => Ok(gas),
                    Err(e) => Err(e),
                }
            },
            TransactionPayload::Bond { amount } => {
                let amount = *amount;
                if sender_st.balance < amount {
                    return Err(VmError::InsufficientBalance);
                }
                if sender_st.nonce == u64::MAX {
                    return Err(VmError::NonceOverflow);
                }
                let st2 = AccountState {
                    balance: sender_st.balance - amount,
                    nonce: sender_st.nonce + 1,
                    stake: sat_add_u128(sender_st.stake, amount),
                };
                crate::store::StateStore::insert(state, Account { id: tx.sender, state: st2 });
                Ok(GAS_PER_BOND)
            },
            TransactionPayload::Unbond { amount } => {
                let amount = *amount;
                if sender_st.stake < amount {
                    return Err(VmError::InsufficientBalance);
                }
                if sender_st.nonce == u64::MAX {
                    return Err(VmError::NonceOverflow);
                }
                let st2 = AccountState {
                    balance: sat_add_u128(sender_st.balance, amount),
                    nonce: sender_st.nonce + 1,
                    stake: sender_st.stake - amount,
                };
                crate::store::StateStore::insert(state, Account { id: tx.sender, state: st2 });
                Ok(GAS_PER_UNBOND)
            },
            TransactionPayload::ContractDeploy { bytecode } => {
                if sender_st.nonce == u64::MAX {
                    return Err(VmError::NonceOverflow);
                }
                let bumped = AccountState {
                    balance: sender_st.balance,
                    nonce: sender_st.nonce + 1,
                    stake: sender_st.stake,
                };
                let addr = derive_contract_address(&tx.sender, tx.nonce);
                proof {
                    assert(exists|id: AccountId|
                        id.0@ == spec_contract_address(tx.sender, tx.nonce)) by {
                        assert(addr.0@ == spec_contract_address(tx.sender, tx.nonce));
                    }
                    crate::types::lemma_id_bytes_eq(
                        account_id_of(spec_contract_address(tx.sender, tx.nonce)),
                        addr,
                    );
                }
                crate::store::StateStore::insert(state, Account { id: tx.sender, state: bumped });
                crate::store::StateStore::insert(
                    state,
                    Account { id: addr, state: AccountState { balance: 0, nonce: 0, stake: 0 } },
                );
                state.set_contract_code(addr, clone_bytes(bytecode));
                Ok(GAS_PER_CONTRACT_DEPLOY)
            },
            TransactionPayload::ContractCall { contract, calldata } => {
                if sender_st.nonce == u64::MAX {
                    return Err(VmError::NonceOverflow);
                }
                let code_v = match state.get_contract_code(contract) {
                    Some(c) => clone_bytes(c),
                    None => {
                        return Err(VmError::AccountNotFound);
                    },
                };
                let mut work = state.snapshot();
                let mut interp = crate::interpreter::Interpreter::new(
                    code_v,
                    GAS_PER_CONTRACT_CALL,
                );
                proof {
                    assert(interp.stack@ =~= Seq::<[u8; 32]>::empty());
                    assert(interp.memory@ =~= Seq::<u8>::empty());
                    assert(crate::interpreter::stack_view(Seq::<[u8; 32]>::empty()) =~= Seq::<
                        Seq<u8>,
                    >::empty());
                    assert(code_v@ == old(state).code()[*contract]);
                }
                let res = interp.run(*contract, calldata.as_slice(), &mut work);
                proof {
                    assert(crate::interpreter::spec_start(
                        0,
                        crate::interpreter::stack_view(Seq::<[u8; 32]>::empty()),
                        Seq::<u8>::empty(),
                        0,
                        old(state).storage(),
                        None,
                        calldata@,
                    ) =~= spec_call_start(old(state).storage(), calldata@));
                }
                match res {
                    Ok(gas) => {
                        match work.get_mut(&tx.sender) {
                            Some(p) => {
                                p.nonce = p.nonce + 1;
                            },
                            None => {
                                proof {
                                    assert(false);
                                }
                                return Err(VmError::AccountNotFound);
                            },
                        }
                        *state = work;
                        Ok(gas)
                    },
                    Err(e) => Err(e),
                }
            },
        }
    }
}

impl Default for Vm {
    fn default() -> (r: Self) {
        Vm {  }
    }
}


/// The balance a map holds for an account; absent accounts hold nothing.
pub open spec fn spec_balance_of(m: Map<AccountId, AccountState>, id: AccountId) -> int {
    if m.contains_key(id) {
        m[id].balance as int
    } else {
        0
    }
}

/// The sum of the balances of a list of accounts.
pub open spec fn spec_balance_sum(ids: Seq<AccountId>, m: Map<AccountId, AccountState>) -> int
    decreases ids.len(),
{
    if ids.len() == 0 {
        0
    } else {
        spec_balance_of(m, ids[0]) + spec_balance_sum(ids.drop_first(), m)
    }
}

/// A sum over distinct accounts is unchanged when only two accounts change
/// balance, by amounts that cancel.
proof fn lemma_sum_two_point(ids: Seq<AccountId>, m1: Map<AccountId, AccountState>, m2: Map<AccountId, AccountState>, a: AccountId, b: AccountId, d: int)
    requires
        a != b,
        forall|i: int, j: int| 0 <= i < j < ids.len() ==> ids[i] != ids[j],
        forall|id: AccountId| id != a && id != b ==> spec_balance_of(m2, id) == spec_balance_of(m1, id),
        spec_balance_of(m2, a) == spec_balance_of(m1, a) - d,
        spec_balance_of(m2, b) == spec_balance_of(m1, b) + d,
    ensures
        spec_balance_sum(ids, m2) == spec_balance_sum(ids, m1) + (if ids.contains(b) {
            d
        } else {
            0
        }) - (if ids.contains(a) {
            d
        } else {
            0
        }),
    decreases ids.len(),
{
    if ids.len() > 0 {
        assert(forall|i: int, j: int|
            0 <= i < j < ids.drop_first().len() ==> #[trigger] ids.drop_first()[i] != #[trigger] ids.drop_first()[j]) by {
            assert(forall|i: int|
                0 <= i < ids.drop_first().len() ==> #[trigger] ids.drop_first()[i] == ids[i + 1]);
        }
        lemma_sum_two_point(ids.drop_first(), m1, m2, a, b, d);
        assert(ids.contains(ids[0])) by {
            assert(ids[0] == ids[0]);
        }
        assert forall|x: AccountId| ids.drop_first().contains(x) implies ids.contains(x) by {
            let w = choose|w: int|
                0 <= w < ids.drop_first().len() && ids.drop_first()[w] == x;
            assert(ids[w + 1] == x);
        }
        assert forall|x: AccountId|
            ids.contains(x) && ids[0] != x implies ids.drop_first().contains(x) by {
            let w = choose|w: int| 0 <= w < ids.len() && ids[w] == x;
            assert(w > 0);
            assert(ids.drop_first()[w - 1] == x);
        }
        if ids.contains(a) && !ids.drop_first().contains(a) {
            assert(ids[0] == a);
        }
        if ids.contains(b) && !ids.drop_first().contains(b) {
            assert(ids[0] == b);
        }
        if ids[0] == a {
            assert(!ids.drop_first().contains(a)) by {
                if ids.drop_first().contains(a) {
                    let w = choose|w: int|
                        0 <= w < ids.drop_first().len() && ids.drop_first()[w] == a;
                    assert(ids[w + 1] == a && ids[0] == a);
                }
            }
        }
        if ids[0] == b {
            assert(!ids.drop_first().contains(b)) by {
                if ids.drop_first().contains(b) {
                    let w = choose|w: int|
                        0 <= w < ids.drop_first().len() && ids.drop_first()[w] == b;
                    assert(ids[w + 1] == b && ids[0] == b);
                }
            }
        }
    }
}

/// Balance conservation: a successful transfer whose credit does not
/// saturate leaves the summed balance of any distinct account list that
/// covers both parties unchanged.
pub proof fn lemma_transfer_conserves(m: Map<AccountId, AccountState>, sender: AccountId, nonce: u64, to: AccountId, amount: u128, ids: Seq<AccountId>)
    requires
        spec_transfer(m, sender, nonce, to, amount) matches Ok(_),
        ids.contains(sender),
        ids.contains(to),
        forall|i: int, j: int| 0 <= i < j < ids.len() ==> ids[i] != ids[j],
        // the recipient's credit does not saturate
        m.contains_key(to) && sender != to ==> m[to].balance + amount <= u128::MAX,
    ensures
        spec_transfer(m, sender, nonce, to, amount) matches Ok(m2) && spec_balance_sum(ids, m2)
            == spec_balance_sum(ids, m),
{
    let m2 = match spec_transfer(m, sender, nonce, to, amount) {
        Ok(mm) => mm,
        Err(_) => arbitrary(),
    };
    if sender == to {
        assert(spec_balance_of(m2, sender) == spec_balance_of(m, sender));
        assert(forall|id: AccountId|
            id != sender ==> spec_balance_of(m2, id) == spec_balance_of(m, id));
        lemma_sum_same(ids, m, m2);
    } else {
        assert(spec_balance_of(m2, sender) == spec_balance_of(m, sender) - amount);
        assert(spec_balance_of(m2, to) == spec_balance_of(m, to) + amount);
        assert(forall|id: AccountId|
            id != sender && id != to ==> spec_balance_of(m2, id) == spec_balance_of(m, id));
        lemma_sum_two_point(ids, m, m2, sender, to, amount as int);
    }
}

/// Equal balances everywhere give equal sums.
proof fn lemma_sum_same(ids: Seq<AccountId>, m1: Map<AccountId, AccountState>, m2: Map<AccountId, AccountState>)
    requires
        forall|id: AccountId| spec_balance_of(m2, id) == spec_balance_of(m1, id),
    ensures
        spec_balance_sum(ids, m2) == spec_balance_sum(ids, m1),
    decreases ids.len(),
{
    if ids.len() > 0 {
        lemma_sum_same(ids.drop_first(), m1, m2);
    }
}


/// Saturating multiplication on u128.
pub open spec fn spec_sat_mul_u128(a: u128, b: u128) -> u128 {
    if a * b > u128::MAX {
        u128::MAX
    } else {
        (a * b) as u128
    }
}

/// Saturating multiplication on u128.
pub fn sat_mul_u128(a: u128, b: u128) -> (r: u128)
    ensures
        r == spec_sat_mul_u128(a, b),
{
    if b == 0 {
        return 0;
    }
    let q = u128::MAX / b;
    proof {
        let qi = q as int;
        let r0 = u128::MAX as int % b as int;
        vstd::arithmetic::div_mod::lemma_fundamental_div_mod(u128::MAX as int, b as int);
        vstd::arithmetic::div_mod::lemma_mod_bound(u128::MAX as int, b as int);
        if a <= q {
            assert(a * b <= u128::MAX) by (nonlinear_arith)
                requires
                    a <= qi,
                    0 < b,
                    0 <= a,
                    u128::MAX == b * qi + r0,
                    0 <= r0,
            ;
        } else {
            assert(a * b > u128::MAX) by (nonlinear_arith)
                requires
                    a >= qi + 1,
                    0 < b,
                    u128::MAX == b * qi + r0,
                    r0 < b,
            ;
        }
    }
    if a > q {
        u128::MAX
    } else {
        a * b
    }
}


/// A balance sum is never negative.
pub proof fn lemma_sum_nonneg(ids: Seq<AccountId>, m: Map<AccountId, AccountState>)
    ensures
        spec_balance_sum(ids, m) >= 0,
    decreases ids.len(),
{
    if ids.len() > 0 {
        lemma_sum_nonneg(ids.drop_first(), m);
    }
}

/// A listed account's balance is at most the listed sum.
pub proof fn lemma_member_le_sum(ids: Seq<AccountId>, m: Map<AccountId, AccountState>, x: AccountId)
    requires
        ids.contains(x),
    ensures
        spec_balance_of(m, x) <= spec_balance_sum(ids, m),
    decreases ids.len(),
{
    lemma_sum_nonneg(ids.drop_first(), m);
    if ids[0] == x {
    } else {
        let w = choose|w: int| 0 <= w < ids.len() && ids[w] == x;
        assert(ids.drop_first()[w - 1] == x);
        assert(ids.drop_first().contains(x));
        lemma_member_le_sum(ids.drop_first(), m, x);
    }
}

/// Two different listed accounts' balances together are at most the listed
/// sum.
pub proof fn lemma_two_members_le_sum(ids: Seq<AccountId>, m: Map<AccountId, AccountState>, a: AccountId, b: AccountId)
    requires
        a != b,
        ids.contains(a),
        ids.contains(b),
    ensures
        spec_balance_of(m, a) + spec_balance_of(m, b) <= spec_balance_sum(ids, m),
    decreases ids.len(),
{
    let t = ids.drop_first();
    if ids[0] == a {
        assert(t.contains(b)) by {
            let w = choose|w: int| 0 <= w < ids.len() && ids[w] == b;
            assert(w > 0);
            assert(t[w - 1] == b);
        }
        lemma_member_le_sum(t, m, b);
    } else if ids[0] == b {
        assert(t.contains(a)) by {
            let w = choose|w: int| 0 <= w < ids.len() && ids[w] == a;
            assert(w > 0);
            assert(t[w - 1] == a);
        }
        lemma_member_le_sum(t, m, a);
    } else {
        assert(t.contains(a)) by {
            let w = choose|w: int| 0 <= w < ids.len() && ids[w] == a;
            assert(w > 0);
            assert(t[w - 1] == a);
        }
        assert(t.contains(b)) by {
            let w = choose|w: int| 0 <= w < ids.len() && ids[w] == b;
            assert(w > 0);
            assert(t[w - 1] == b);
        }
        lemma_two_members_le_sum(t, m, a, b);
    }
}

} // verus!
