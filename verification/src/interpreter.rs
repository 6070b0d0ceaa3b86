//! The contract interpreter: a 32-byte-word stack machine with
//! byte-addressed, zero-fill-growing memory, gas metering, and contract
//! storage. Its behaviour is given by a small-step specification, and the
//! executable loop is proved to follow it exactly.

use vstd::prelude::*;

use crate::bytecode::{Opcode, GAS_ADD, GAS_JUMP, GAS_JUMPI, GAS_MLOAD, GAS_MSTORE, GAS_MUL,
    GAS_PUSH, GAS_RETURN, GAS_SLOAD, GAS_SSTORE, GAS_STOP, GAS_SUB};
use crate::hash::zero_hash_bytes;
use crate::types::{AccountId, AccountState};
use crate::vm::VmError;

verus! {

/// Storage interface for SLOAD and SSTORE, implemented by the state store.
pub trait StorageAccess {
    /// The storage map behind this access.
    spec fn s_map(&self) -> Map<(AccountId, Seq<u8>), Seq<u8>>;

    /// Internal invariant.
    spec fn s_inv(&self) -> bool;

    /// Whatever the implementor holds besides the storage map; storage
    /// writes leave it unchanged.
    spec fn s_frame(&self) -> (Map<AccountId, AccountState>, Map<AccountId, Seq<u8>>);

    /// Read a storage cell; absent cells read as 32 zero bytes.
    fn sload(&self, contract: AccountId, key: [u8; 32]) -> (r: [u8; 32])
        requires
            self.s_inv(),
        ensures
            r@ == spec_sload(self.s_map(), contract, key@),
    ;

    /// Write a storage cell.
    fn sstore(&mut self, contract: AccountId, key: [u8; 32], value: [u8; 32])
        requires
            old(self).s_inv(),
        ensures
            final(self).s_inv(),
            final(self).s_map() == old(self).s_map().insert((contract, key@), value@),
            final(self).s_frame() == old(self).s_frame(),
    ;
}

/// What reading a storage cell yields: the stored word, or 32 zero bytes.
pub open spec fn spec_sload(m: Map<(AccountId, Seq<u8>), Seq<u8>>, contract: AccountId, key: Seq<u8>) -> Seq<u8> {
    if m.contains_key((contract, key)) {
        m[(contract, key)]
    } else {
        zero_hash_bytes()
    }
}

impl StorageAccess for crate::store::StateStore {
    open spec fn s_map(&self) -> Map<(AccountId, Seq<u8>), Seq<u8>> {
        self.storage()
    }

    open spec fn s_inv(&self) -> bool {
        self.wf()
    }

    open spec fn s_frame(&self) -> (Map<AccountId, AccountState>, Map<AccountId, Seq<u8>>) {
        (self.accounts(), self.code())
    }

    fn sload(&self, contract: AccountId, key: [u8; 32]) -> (r: [u8; 32]) {
        self.storage_get(&contract, &key)
    }

    fn sstore(&mut self, contract: AccountId, key: [u8; 32], value: [u8; 32]) {
        self.merge_contract_storage(contract, key, value);
    }
}

/// The machine state the small-step specification works on.
#[verifier::ext_equal]
pub ghost struct VmState {
    pub pc: nat,
    pub stack: Seq<Seq<u8>>,
    pub memory: Seq<u8>,
    pub gas_used: u64,
    pub storage: Map<(AccountId, Seq<u8>), Seq<u8>>,
    pub return_data: Option<Seq<u8>>,
}

/// How a run ends: a halt with the final state, or a failure; on failure the
/// state is the one at the start of the failing step.
#[verifier::ext_equal]
pub ghost enum RunOutcome {
    Done(VmState),
    Fail(VmError, VmState),
}

/// The big-endian value of the low 8 bytes of a 32-byte word.
pub open spec fn spec_word_u64(w: Seq<u8>) -> u64 {
    (((w[24] as u64) << 56) | ((w[25] as u64) << 48) | ((w[26] as u64) << 40) | ((w[27] as u64)
        << 32) | ((w[28] as u64) << 24) | ((w[29] as u64) << 16) | ((w[30] as u64) << 8) | (
    w[31] as u64)) as u64
}

/// A word read as a memory index: the low 8 bytes, truncated to the machine.
pub open spec fn spec_word_usize(w: Seq<u8>) -> usize {
    spec_word_u64(w) as usize
}

/// The 32-byte word that holds a 64-bit value, big-endian, zero-padded.
pub open spec fn spec_u64_word(n: u64) -> Seq<u8> {
    Seq::new(32, |i: int|
        if i < 24 {
            0u8
        } else {
            ((n >> (((31 - i) * 8) as u64)) & 0xff) as u8
        })
}

/// Carry into byte position `i` when adding two 32-byte words, byte 31 being
/// least significant.
pub open spec fn spec_add_carry(a: Seq<u8>, b: Seq<u8>, i: int) -> int
    decreases 32 - i,
{
    if i >= 31 {
        0
    } else {
        (a[i + 1] + b[i + 1] + spec_add_carry(a, b, i + 1)) / 256
    }
}

/// Addition of two 32-byte words, modulo 2^256, big-endian.
pub open spec fn spec_add_u256(a: Seq<u8>, b: Seq<u8>) -> Seq<u8> {
    Seq::new(32, |i: int| ((a[i] + b[i] + spec_add_carry(a, b, i)) % 256) as u8)
}

/// Borrow into byte position `i` when subtracting `b` from `a`.
pub open spec fn spec_sub_borrow(a: Seq<u8>, b: Seq<u8>, i: int) -> int
    decreases 32 - i,
{
    if i >= 31 {
        0
    } else if a[i + 1] - b[i + 1] - spec_sub_borrow(a, b, i + 1) < 0 {
        1
    } else {
        0
    }
}

/// Subtraction of two 32-byte words, modulo 2^256, big-endian.
pub open spec fn spec_sub_u256(a: Seq<u8>, b: Seq<u8>) -> Seq<u8> {
    Seq::new(32, |i: int| ((a[i] - b[i] - spec_sub_borrow(a, b, i)) % 256) as u8)
}

/// Saturating 64-bit multiplication.
pub open spec fn spec_sat_mul_u64(a: u64, b: u64) -> u64 {
    if a * b > u64::MAX {
        u64::MAX
    } else {
        (a * b) as u64
    }
}

/// Multiplication of two words: saturating in the low 64 bits, the high
/// bytes zeroed. A deliberate narrowing of the machine.
pub open spec fn spec_mul_u256(a: Seq<u8>, b: Seq<u8>) -> Seq<u8> {
    spec_u64_word(spec_sat_mul_u64(spec_word_u64(a), spec_word_u64(b)))
}

/// Memory grown by zero fill to at least `end` bytes.
pub open spec fn spec_grow(m: Seq<u8>, end: int) -> Seq<u8> {
    if end <= m.len() {
        m
    } else {
        m + Seq::new((end - m.len()) as nat, |i: int| 0u8)
    }
}

/// Memory with 32 bytes written at `off` (the memory must already reach
/// `off + 32`).
pub open spec fn spec_write32(m: Seq<u8>, off: int, w: Seq<u8>) -> Seq<u8> {
    Seq::new(m.len(), |i: int|
        if off <= i < off + 32 {
            w[i - off]
        } else {
            m[i]
        })
}

/// Memory with `data` written at offset 0 (the memory must already reach
/// `data.len()`).
pub open spec fn spec_write_at0(m: Seq<u8>, data: Seq<u8>) -> Seq<u8> {
    Seq::new(m.len(), |i: int|
        if i < data.len() {
            data[i]
        } else {
            m[i]
        })
}

/// The all-zero 32-byte word.
pub open spec fn spec_zero_word() -> Seq<u8> {
    zero_hash_bytes()
}

/// One spent-gas check: whether `cost` still fits under the limit.
pub open spec fn spec_gas_fits(st: VmState, gas_limit: u64, cost: u64) -> bool {
    cost <= gas_limit - st.gas_used
}

/// The small-step run of the machine from `st` until halt, failure, or the
/// program counter leaving the code. On failure, the paired state is the one
/// at the start of the failing step.
pub open spec fn spec_run(code: Seq<u8>, contract: AccountId, st: VmState, gas_limit: u64) -> RunOutcome
    decreases gas_limit - st.gas_used when st.gas_used <= gas_limit
{
    if st.pc >= code.len() {
        RunOutcome::Done(st)
    } else {
        let op = code[st.pc as int];
        match Opcode::spec_push_size(op) {
            Some(n) => {
                if !spec_gas_fits(st, gas_limit, GAS_PUSH) {
                    RunOutcome::Fail(VmError::OutOfGas, st)
                } else if st.pc + 1 + n > code.len() {
                    RunOutcome::Fail(VmError::InvalidBytecode, st)
                } else {
                    let w = Seq::new(32, |i: int|
                        if i < 32 - n {
                            0u8
                        } else {
                            code[st.pc + 1 + (i - (32 - n))]
                        });
                    spec_run(code, contract, VmState {
                        pc: (st.pc + 1 + n) as nat,
                        stack: st.stack.push(w),
                        gas_used: (st.gas_used + GAS_PUSH) as u64,
                        ..st
                    }, gas_limit)
                }
            },
            None => match Opcode::spec_from_byte(op) {
                None => RunOutcome::Fail(VmError::InvalidBytecode, st),
                Some(Opcode::Stop) => RunOutcome::Done(VmState { pc: (st.pc + 1) as nat, ..st }),
                Some(Opcode::Add) => {
                    if !spec_gas_fits(st, gas_limit, GAS_ADD) {
                        RunOutcome::Fail(VmError::OutOfGas, st)
                    } else if st.stack.len() < 2 {
                        RunOutcome::Fail(VmError::StackUnderflow, st)
                    } else {
                        let b = st.stack.last();
                        let a = st.stack[st.stack.len() - 2];
                        spec_run(code, contract, VmState {
                            pc: (st.pc + 1) as nat,
                            stack: st.stack.drop_last().drop_last().push(spec_add_u256(a, b)),
                            gas_used: (st.gas_used + GAS_ADD) as u64,
                            ..st
                        }, gas_limit)
                    }
                },
                Some(Opcode::Sub) => {
                    if !spec_gas_fits(st, gas_limit, GAS_SUB) {
                        RunOutcome::Fail(VmError::OutOfGas, st)
                    } else if st.stack.len() < 2 {
                        RunOutcome::Fail(VmError::StackUnderflow, st)
                    } else {
                        let b = st.stack.last();
                        let a = st.stack[st.stack.len() - 2];
                        spec_run(code, contract, VmState {
                            pc: (st.pc + 1) as nat,
                            stack: st.stack.drop_last().drop_last().push(spec_sub_u256(a, b)),
                            gas_used: (st.gas_used + GAS_SUB) as u64,
                            ..st
                        }, gas_limit)
                    }
                },
                Some(Opcode::Mul) => {
                    if !spec_gas_fits(st, gas_limit, GAS_MUL) {
                        RunOutcome::Fail(VmError::OutOfGas, st)
                    } else if st.stack.len() < 2 {
                        RunOutcome::Fail(VmError::StackUnderflow, st)
                    } else {
                        let b = st.stack.last();
                        let a = st.stack[st.stack.len() - 2];
                        spec_run(code, contract, VmState {
                            pc: (st.pc + 1) as nat,
                            stack: st.stack.drop_last().drop_last().push(spec_mul_u256(a, b)),
                            gas_used: (st.gas_used + GAS_MUL) as u64,
                            ..st
                        }, gas_limit)
                    }
                },
                Some(Opcode::MLoad) => {
                    if !spec_gas_fits(st, gas_limit, GAS_MLOAD) {
                        RunOutcome::Fail(VmError::OutOfGas, st)
                    } else if st.stack.len() < 1 {
                        RunOutcome::Fail(VmError::StackUnderflow, st)
                    } else {
                        let off = spec_word_usize(st.stack.last()) as int;
                        if off > usize::MAX - 32 {
                            RunOutcome::Fail(VmError::OutOfGas, st)
                        } else {
                            let mem = spec_grow(st.memory, off + 32);
                            spec_run(code, contract, VmState {
                                pc: (st.pc + 1) as nat,
                                stack: st.stack.drop_last().push(mem.subrange(off, off + 32)),
                                memory: mem,
                                gas_used: (st.gas_used + GAS_MLOAD) as u64,
                                ..st
                            }, gas_limit)
                        }
                    }
                },
                Some(Opcode::MStore) => {
                    if !spec_gas_fits(st, gas_limit, GAS_MSTORE) {
                        RunOutcome::Fail(VmError::OutOfGas, st)
                    } else if st.stack.len() < 2 {
                        RunOutcome::Fail(VmError::StackUnderflow, st)
                    } else {
                        let off = spec_word_usize(st.stack.last()) as int;
                        let w = st.stack[st.stack.len() - 2];
                        if off > usize::MAX - 32 {
                            RunOutcome::Fail(VmError::OutOfGas, st)
                        } else {
                            spec_run(code, contract, VmState {
                                pc: (st.pc + 1) as nat,
                                stack: st.stack.drop_last().drop_last(),
                                memory: spec_write32(spec_grow(st.memory, off + 32), off, w),
                                gas_used: (st.gas_used + GAS_MSTORE) as u64,
                                ..st
                            }, gas_limit)
                        }
                    }
                },
                Some(Opcode::SLoad) => {
                    if !spec_gas_fits(st, gas_limit, GAS_SLOAD) {
                        RunOutcome::Fail(VmError::OutOfGas, st)
                    } else if st.stack.len() < 1 {
                        RunOutcome::Fail(VmError::StackUnderflow, st)
                    } else {
                        let key = st.stack.last();
                        spec_run(code, contract, VmState {
                            pc: (st.pc + 1) as nat,
                            stack: st.stack.drop_last().push(spec_sload(st.storage, contract, key)),
                            gas_used: (st.gas_used + GAS_SLOAD) as u64,
                            ..st
                        }, gas_limit)
                    }
                },
                Some(Opcode::SStore) => {
                    if !spec_gas_fits(st, gas_limit, GAS_SSTORE) {
                        RunOutcome::Fail(VmError::OutOfGas, st)
                    } else if st.stack.len() < 2 {
                        RunOutcome::Fail(VmError::StackUnderflow, st)
                    } else {
                        let key = st.stack.last();
                        let value = st.stack[st.stack.len() - 2];
                        spec_run(code, contract, VmState {
                            pc: (st.pc + 1) as nat,
                            stack: st.stack.drop_last().drop_last(),
                            storage: st.storage.insert((contract, key), value),
                            gas_used: (st.gas_used + GAS_SSTORE) as u64,
                            ..st
                        }, gas_limit)
                    }
                },
                Some(Opcode::Jump) => {
                    if !spec_gas_fits(st, gas_limit, GAS_JUMP) {
                        RunOutcome::Fail(VmError::OutOfGas, st)
                    } else if st.stack.len() < 1 {
                        RunOutcome::Fail(VmError::StackUnderflow, st)
                    } else {
                        let dest = spec_word_usize(st.stack.last());
                        if dest >= code.len() {
                            RunOutcome::Fail(VmError::InvalidJump, st)
                        } else {
                            spec_run(code, contract, VmState {
                                pc: dest as nat,
                                stack: st.stack.drop_last(),
                                gas_used: (st.gas_used + GAS_JUMP) as u64,
                                ..st
                            }, gas_limit)
                        }
                    }
                },
                Some(Opcode::JumpI) => {
                    if !spec_gas_fits(st, gas_limit, GAS_JUMPI) {
                        RunOutcome::Fail(VmError::OutOfGas, st)
                    } else if st.stack.len() < 2 {
                        RunOutcome::Fail(VmError::StackUnderflow, st)
                    } else {
                        let dest = spec_word_usize(st.stack.last());
                        let cond = st.stack[st.stack.len() - 2];
                        let jumps = cond != spec_zero_word() && dest < code.len();
                        spec_run(code, contract, VmState {
                            pc: if jumps {
                                dest as nat
                            } else {
                                (st.pc + 1) as nat
                            },
                            stack: st.stack.drop_last().drop_last(),
                            gas_used: (st.gas_used + GAS_JUMPI) as u64,
                            ..st
                        }, gas_limit)
                    }
                },
                Some(Opcode::Return) => {
                    if st.stack.len() < 2 {
                        RunOutcome::Fail(VmError::StackUnderflow, st)
                    } else {
                        let off = spec_word_usize(st.stack.last()) as int;
                        let size = spec_word_usize(st.stack[st.stack.len() - 2]) as int;
                        if size > usize::MAX - off {
                            RunOutcome::Fail(VmError::OutOfGas, st)
                        } else {
                            let mem = spec_grow(st.memory, off + size);
                            RunOutcome::Done(VmState {
                                pc: (st.pc + 1) as nat,
                                stack: st.stack.drop_last().drop_last(),
                                memory: mem,
                                return_data: Some(mem.subrange(off, off + size)),
                                ..st
                            })
                        }
                    }
                },
                Some(Opcode::Push1) => RunOutcome::Fail(VmError::InvalidBytecode, st),
                Some(Opcode::Push32) => RunOutcome::Fail(VmError::InvalidBytecode, st),
            },
        }
    }
}

/// The views of a stack of 32-byte words.
pub open spec fn stack_view(s: Seq<[u8; 32]>) -> Seq<Seq<u8>> {
    Seq::new(s.len(), |i: int| s[i]@)
}

proof fn lemma_stack_view_push(s: Seq<[u8; 32]>, x: [u8; 32])
    ensures
        stack_view(s.push(x)) == stack_view(s).push(x@),
{
    assert(stack_view(s.push(x)) =~= stack_view(s).push(x@));
}

proof fn lemma_stack_view_drop(s: Seq<[u8; 32]>)
    requires
        s.len() > 0,
    ensures
        stack_view(s.drop_last()) == stack_view(s).drop_last(),
        s.last()@ == stack_view(s).last(),
{
    assert(stack_view(s.drop_last()) =~= stack_view(s).drop_last());
}

/// The machine state a run starts from: the calldata written at offset 0 of
/// the (grown) memory.
pub open spec fn spec_start(pc: nat, stack: Seq<Seq<u8>>, memory: Seq<u8>, gas_used: u64, storage: Map<(AccountId, Seq<u8>), Seq<u8>>, rd: Option<Seq<u8>>, calldata: Seq<u8>) -> VmState {
    VmState {
        pc,
        stack,
        memory: spec_write_at0(spec_grow(memory, calldata.len() as int), calldata),
        gas_used,
        storage,
        return_data: rd,
    }
}

/// The stack machine: code, program counter, word stack, linear memory, and
/// gas accounting.
pub struct Interpreter {
    pub code: Vec<u8>,
    pub pc: usize,
    pub stack: Vec<[u8; 32]>,
    pub memory: Vec<u8>,
    pub gas_used: u64,
    pub gas_limit: u64,
    pub return_data: Option<Vec<u8>>,
}

impl Interpreter {
    /// The abstract machine state this interpreter holds, against a given
    /// storage map.
    pub open spec fn abs(&self, storage: Map<(AccountId, Seq<u8>), Seq<u8>>) -> VmState {
        VmState {
            pc: self.pc as nat,
            stack: stack_view(self.stack@),
            memory: self.memory@,
            gas_used: self.gas_used,
            storage,
            return_data: match self.return_data {
                Some(v) => Some(v@),
                None => None,
            },
        }
    }

    /// A fresh machine over the given code, with an empty stack and memory.
    pub fn new(code: Vec<u8>, gas_limit: u64) -> (r: Self)
        ensures
            r.code@ == code@,
            r.pc == 0,
            r.stack@.len() == 0,
            r.memory@.len() == 0,
            r.gas_used == 0,
            r.gas_limit == gas_limit,
            r.return_data matches None,
    {
        Interpreter {
            code,
            pc: 0,
            stack: Vec::new(),
            memory: Vec::new(),
            gas_used: 0,
            gas_limit,
            return_data: None,
        }
    }

    /// Grow memory by zero fill so that it reaches at least `end` bytes.
    fn ensure_memory(&mut self, end: usize)
        ensures
            final(self).memory@ == spec_grow(old(self).memory@, end as int),
            final(self).code == old(self).code,
            final(self).pc == old(self).pc,
            final(self).stack == old(self).stack,
            final(self).gas_used == old(self).gas_used,
            final(self).gas_limit == old(self).gas_limit,
            final(self).return_data == old(self).return_data,
    {
        let ghost pre = self.memory@;
        while self.memory.len() < end
            invariant
                pre.len() <= self.memory@.len(),
                self.memory@.len() <= vstd::math::max(pre.len() as int, end as int),
                self.memory@.take(pre.len() as int) == pre,
                forall|j: int| pre.len() <= j < self.memory@.len() ==> self.memory@[j] == 0u8,
                self.code == old(self).code,
                self.pc == old(self).pc,
                self.stack == old(self).stack,
                self.gas_used == old(self).gas_used,
                self.gas_limit == old(self).gas_limit,
                self.return_data == old(self).return_data,
            decreases end - self.memory@.len(),
        {
            self.memory.push(0);
            proof {
                assert(self.memory@.take(pre.len() as int) =~= pre);
            }
        }
        proof {
            assert(self.memory@ =~= spec_grow(pre, end as int));
        }
    }

    /// Write 32 bytes at `off`; the memory must already reach `off + 32`.
    fn write32(&mut self, off: usize, w: &[u8; 32])
        requires
            off + 32 <= old(self).memory@.len(),
        ensures
            final(self).memory@ == spec_write32(old(self).memory@, off as int, w@),
            final(self).code == old(self).code,
            final(self).pc == old(self).pc,
            final(self).stack == old(self).stack,
            final(self).gas_used == old(self).gas_used,
            final(self).gas_limit == old(self).gas_limit,
            final(self).return_data == old(self).return_data,
    {
        let ghost pre = self.memory@;
        let n0 = self.memory.len();
        let mut k: usize = 0;
        while k < 32
            invariant
                0 <= k <= 32,
                self.memory@.len() == n0,
                off + 32 <= self.memory@.len(),
                self.memory@.len() == pre.len(),
                forall|j: int|
                    0 <= j < self.memory@.len() ==> self.memory@[j] == (if off <= j < off + k {
                        w@[j - off]
                    } else {
                        pre[j]
                    }),
                self.code == old(self).code,
                self.pc == old(self).pc,
                self.stack == old(self).stack,
                self.gas_used == old(self).gas_used,
                self.gas_limit == old(self).gas_limit,
                self.return_data == old(self).return_data,
            decreases 32 - k,
        {
            proof {
                assert(off + k < self.memory@.len());
            }
            let idx = off + k;
            self.memory[idx] = w[k];
            k = k + 1;
        }
        proof {
            assert(self.memory@ =~= spec_write32(pre, off as int, w@));
        }
    }

    /// Write `data` at offset 0; the memory must already reach its length.
    fn write_at0(&mut self, data: &[u8])
        requires
            data@.len() <= old(self).memory@.len(),
        ensures
            final(self).memory@ == spec_write_at0(old(self).memory@, data@),
            final(self).code == old(self).code,
            final(self).pc == old(self).pc,
            final(self).stack == old(self).stack,
            final(self).gas_used == old(self).gas_used,
            final(self).gas_limit == old(self).gas_limit,
            final(self).return_data == old(self).return_data,
    {
        let ghost pre = self.memory@;
        let mut k: usize = 0;
        while k < data.len()
            invariant
                0 <= k <= data@.len(),
                data@.len() <= self.memory@.len(),
                self.memory@.len() == pre.len(),
                forall|j: int|
                    0 <= j < self.memory@.len() ==> self.memory@[j] == (if j < k {
                        data@[j]
                    } else {
                        pre[j]
                    }),
                self.code == old(self).code,
                self.pc == old(self).pc,
                self.stack == old(self).stack,
                self.gas_used == old(self).gas_used,
                self.gas_limit == old(self).gas_limit,
                self.return_data == old(self).return_data,
            decreases data@.len() - k,
        {
            self.memory[k] = data[k];
            k = k + 1;
        }
        proof {
            assert(self.memory@ =~= spec_write_at0(pre, data@));
        }
    }
}

impl Interpreter {
    /// Execute until STOP, RETURN, a failure, or the program counter leaving
    /// the code; returns the gas used. The run follows the small-step
    /// specification exactly. Memory demands beyond the address space are
    /// reported as running out of gas.
    pub fn run<S: StorageAccess>(&mut self, contract: AccountId, calldata: &[u8], storage: &mut S) -> (r: Result<u64, VmError>)
        requires
            old(self).gas_used <= old(self).gas_limit,
            old(storage).s_inv(),
        ensures
            final(storage).s_inv(),
            final(storage).s_frame() == old(storage).s_frame(),
            final(self).code == old(self).code,
            final(self).gas_limit == old(self).gas_limit,
            ({
                let st0 = spec_start(
                    old(self).pc as nat,
                    stack_view(old(self).stack@),
                    old(self).memory@,
                    old(self).gas_used,
                    old(storage).s_map(),
                    (match old(self).return_data {
                        Some(v) => Some(v@),
                        None => None,
                    }),
                    calldata@,
                );
                match spec_run(old(self).code@, contract, st0, old(self).gas_limit) {
                    RunOutcome::Done(st) => {
                        &&& r matches Ok(g) && g == st.gas_used
                        &&& final(self).abs(final(storage).s_map()) == st
                    },
                    RunOutcome::Fail(e, st) => {
                        &&& r matches Err(e2) && e2 == e
                        &&& final(self).abs(final(storage).s_map()) == st
                    },
                }
            }),
    {
        let clen = calldata.len();
        self.ensure_memory(clen);
        self.write_at0(calldata);
        let ghost code0 = self.code@;
        let ghost limit0 = self.gas_limit;
        let ghost st0 = self.abs(storage.s_map());
        proof {
            assert(st0 =~= spec_start(
                old(self).pc as nat,
                stack_view(old(self).stack@),
                old(self).memory@,
                old(self).gas_used,
                old(storage).s_map(),
                (match old(self).return_data {
                    Some(v) => Some(v@),
                    None => None,
                }),
                calldata@,
            ));
        }
        loop
            invariant_except_break
                spec_run(code0, contract, self.abs(storage.s_map()), limit0) == spec_run(
                    code0,
                    contract,
                    st0,
                    limit0,
                ),
            invariant
                self.gas_used <= self.gas_limit,
                storage.s_inv(),
                storage.s_frame() == old(storage).s_frame(),
                self.code == old(self).code,
                self.code@ == code0,
                self.gas_limit == limit0,
                limit0 == old(self).gas_limit,
                code0 == old(self).code@,
                st0 == spec_start(
                    old(self).pc as nat,
                    stack_view(old(self).stack@),
                    old(self).memory@,
                    old(self).gas_used,
                    old(storage).s_map(),
                    (match old(self).return_data {
                        Some(v) => Some(v@),
                        None => None,
                    }),
                    calldata@,
                ),
            ensures
                storage.s_inv(),
                self.code == old(self).code,
                self.gas_limit == limit0,
                spec_run(code0, contract, st0, limit0) == RunOutcome::Done(
                    self.abs(storage.s_map()),
                ),
            decreases self.gas_limit - self.gas_used,
        {
            let ghost pre = self.abs(storage.s_map());
            if self.pc >= self.code.len() {
                break ;
            }
            let op = self.code[self.pc];
            match Opcode::push_size(op) {
                Some(n8) => {
                    let n: usize = n8 as usize;
                    if GAS_PUSH > self.gas_limit - self.gas_used {
                        proof {
                            assert(spec_run(code0, contract, pre, limit0) == RunOutcome::Fail(
                                VmError::OutOfGas,
                                pre,
                            ));
                        }
                        return Err(VmError::OutOfGas);
                    }
                    if n > self.code.len() - (self.pc + 1) {
                        proof {
                            assert(spec_run(code0, contract, pre, limit0) == RunOutcome::Fail(
                                VmError::InvalidBytecode,
                                pre,
                            ));
                        }
                        return Err(VmError::InvalidBytecode);
                    }
                    let mut warr = [0u8; 32];
                    let cl = self.code.len();
                    let mut k: usize = 0;
                    while k < n
                        invariant
                            0 <= k <= n,
                            1 <= n <= 32,
                            cl == self.code@.len(),
                            self.pc + 1 + n <= self.code@.len(),
                            warr@.len() == 32,
                            self.code@ == code0,
                            forall|j: int| 0 <= j < 32 - n ==> warr@[j] == 0u8,
                            forall|j: int|
                                32 - n <= j < 32 - n + k ==> warr@[j] == code0[self.pc + 1 + (j - (
                                32 - n))],
                        decreases n - k,
                    {
                        let idx = 32 - n + k;
                        warr[idx] = self.code[self.pc + 1 + k];
                        k = k + 1;
                    }
                    let ghost spre = self.stack@;
                    self.stack.push(warr);
                    self.gas_used = self.gas_used + GAS_PUSH;
                    self.pc = self.pc + 1 + n;
                    proof {
                        lemma_stack_view_push(spre, warr);
                        let w = Seq::new(32, |i: int|
                            if i < 32 - (n as int) {
                                0u8
                            } else {
                                code0[pre.pc + 1 + (i - (32 - (n as int)))]
                            });
                        assert(warr@ =~= w);
                        let post = self.abs(storage.s_map());
                        assert(post =~= (VmState {
                            pc: (pre.pc + 1 + n) as nat,
                            stack: pre.stack.push(w),
                            gas_used: (pre.gas_used + GAS_PUSH) as u64,
                            ..pre
                        }));
                        assert(spec_run(code0, contract, pre, limit0) == spec_run(
                            code0,
                            contract,
                            post,
                            limit0,
                        ));
                    }
                },
                None => {
                    let opc = match Opcode::from_byte(op) {
                        Some(o) => o,
                        None => {
                            proof {
                                assert(spec_run(code0, contract, pre, limit0) == RunOutcome::Fail(
                                    VmError::InvalidBytecode,
                                    pre,
                                ));
                            }
                            return Err(VmError::InvalidBytecode);
                        },
                    };
                    match opc {
                        Opcode::Stop => {
                            self.pc = self.pc + 1;
                            proof {
                                let post = self.abs(storage.s_map());
                                assert(post =~= (VmState { pc: (pre.pc + 1) as nat, ..pre }));
                                assert(spec_run(code0, contract, pre, limit0)
                                    == RunOutcome::Done(post));
                            }
                            break ;
                        },
                        Opcode::Add | Opcode::Sub | Opcode::Mul => {
                            let cost: u64 = if matches!(opc, Opcode::Mul) {
                                GAS_MUL
                            } else {
                                GAS_ADD
                            };
                            if cost > self.gas_limit - self.gas_used {
                                proof {
                                    assert(spec_run(code0, contract, pre, limit0)
                                        == RunOutcome::Fail(VmError::OutOfGas, pre));
                                }
                                return Err(VmError::OutOfGas);
                            }
                            if self.stack.len() < 2 {
                                proof {
                                    assert(spec_run(code0, contract, pre, limit0)
                                        == RunOutcome::Fail(VmError::StackUnderflow, pre));
                                }
                                return Err(VmError::StackUnderflow);
                            }
                            let top = self.stack.len() - 1;
                            let b = self.stack[top];
                            let a = self.stack[top - 1];
                            let w: [u8; 32] = match opc {
                                Opcode::Add => add_u256(&a, &b),
                                Opcode::Sub => sub_u256(&a, &b),
                                _ => mul_u256(&a, &b),
                            };
                            let ghost spre = self.stack@;
                            self.stack.truncate(top - 1);
                            self.stack.push(w);
                            self.gas_used = self.gas_used + cost;
                            self.pc = self.pc + 1;
                            proof {
                                assert(b@ == stack_view(spre).last());
                                assert(a@ == stack_view(spre)[spre.len() - 2]);
                                assert(stack_view(self.stack@) =~= stack_view(
                                    spre,
                                ).drop_last().drop_last().push(w@));
                                let post = self.abs(storage.s_map());
                                assert(post =~= (VmState {
                                    pc: (pre.pc + 1) as nat,
                                    stack: pre.stack.drop_last().drop_last().push(w@),
                                    gas_used: (pre.gas_used + cost) as u64,
                                    ..pre
                                }));
                                assert(spec_run(code0, contract, pre, limit0) == spec_run(
                                    code0,
                                    contract,
                                    post,
                                    limit0,
                                ));
                            }
                        },
                        Opcode::MLoad => {
                            if GAS_MLOAD > self.gas_limit - self.gas_used {
                                proof {
                                    assert(spec_run(code0, contract, pre, limit0)
                                        == RunOutcome::Fail(VmError::OutOfGas, pre));
                                }
                                return Err(VmError::OutOfGas);
                            }
                            if self.stack.len() < 1 {
                                proof {
                                    assert(spec_run(code0, contract, pre, limit0)
                                        == RunOutcome::Fail(VmError::StackUnderflow, pre));
                                }
                                return Err(VmError::StackUnderflow);
                            }
                            let top = self.stack.len() - 1;
                            let off = word_to_usize(&self.stack[top]);
                            if off > usize::MAX - 32 {
                                proof {
                                    assert(spec_run(code0, contract, pre, limit0)
                                        == RunOutcome::Fail(VmError::OutOfGas, pre));
                                }
                                return Err(VmError::OutOfGas);
                            }
                            self.ensure_memory(off + 32);
                            let ml = self.memory.len();
                            let mut val = [0u8; 32];
                            let mut k: usize = 0;
                            while k < 32
                                invariant
                                    0 <= k <= 32,
                                    ml == self.memory@.len(),
                                    off + 32 <= self.memory@.len(),
                                    val@.len() == 32,
                                    forall|j: int|
                                        0 <= j < k ==> val@[j] == self.memory@[off + j],
                                decreases 32 - k,
                            {
                                val[k] = self.memory[off + k];
                                k = k + 1;
                            }
                            let ghost spre = self.stack@;
                            self.stack.truncate(top);
                            self.stack.push(val);
                            self.gas_used = self.gas_used + GAS_MLOAD;
                            self.pc = self.pc + 1;
                            proof {
                                let mem = spec_grow(pre.memory, off + 32);
                                assert(self.memory@ == mem);
                                assert(val@ =~= mem.subrange(off as int, off + 32));
                                assert(stack_view(self.stack@) =~= stack_view(
                                    spre,
                                ).drop_last().push(val@));
                                let post = self.abs(storage.s_map());
                                assert(post =~= (VmState {
                                    pc: (pre.pc + 1) as nat,
                                    stack: pre.stack.drop_last().push(
                                        mem.subrange(off as int, off + 32),
                                    ),
                                    memory: mem,
                                    gas_used: (pre.gas_used + GAS_MLOAD) as u64,
                                    ..pre
                                }));
                                assert(spec_run(code0, contract, pre, limit0) == spec_run(
                                    code0,
                                    contract,
                                    post,
                                    limit0,
                                ));
                            }
                        },
                        Opcode::MStore => {
                            if GAS_MSTORE > self.gas_limit - self.gas_used {
                                proof {
                                    assert(spec_run(code0, contract, pre, limit0)
                                        == RunOutcome::Fail(VmError::OutOfGas, pre));
                                }
                                return Err(VmError::OutOfGas);
                            }
                            if self.stack.len() < 2 {
                                proof {
                                    assert(spec_run(code0, contract, pre, limit0)
                                        == RunOutcome::Fail(VmError::StackUnderflow, pre));
                                }
                                return Err(VmError::StackUnderflow);
                            }
                            let top = self.stack.len() - 1;
                            let off = word_to_usize(&self.stack[top]);
                            let w = self.stack[top - 1];
                            if off > usize::MAX - 32 {
                                proof {
                                    assert(spec_run(code0, contract, pre, limit0)
                                        == RunOutcome::Fail(VmError::OutOfGas, pre));
                                }
                                return Err(VmError::OutOfGas);
                            }
                            self.ensure_memory(off + 32);
                            self.write32(off, &w);
                            let ghost spre = self.stack@;
                            self.stack.truncate(top - 1);
                            self.gas_used = self.gas_used + GAS_MSTORE;
                            self.pc = self.pc + 1;
                            proof {
                                assert(stack_view(self.stack@) =~= stack_view(
                                    spre,
                                ).drop_last().drop_last());
                                let post = self.abs(storage.s_map());
                                assert(post =~= (VmState {
                                    pc: (pre.pc + 1) as nat,
                                    stack: pre.stack.drop_last().drop_last(),
                                    memory: spec_write32(
                                        spec_grow(pre.memory, off + 32),
                                        off as int,
                                        w@,
                                    ),
                                    gas_used: (pre.gas_used + GAS_MSTORE) as u64,
                                    ..pre
                                }));
                                assert(spec_run(code0, contract, pre, limit0) == spec_run(
                                    code0,
                                    contract,
                                    post,
                                    limit0,
                                ));
                            }
                        },
                        Opcode::SLoad => {
                            if GAS_SLOAD > self.gas_limit - self.gas_used {
                                proof {
                                    assert(spec_run(code0, contract, pre, limit0)
                                        == RunOutcome::Fail(VmError::OutOfGas, pre));
                                }
                                return Err(VmError::OutOfGas);
                            }
                            if self.stack.len() < 1 {
                                proof {
                                    assert(spec_run(code0, contract, pre, limit0)
                                        == RunOutcome::Fail(VmError::StackUnderflow, pre));
                                }
                                return Err(VmError::StackUnderflow);
                            }
                            let top = self.stack.len() - 1;
                            let key = self.stack[top];
                            let value = storage.sload(contract, key);
                            let ghost spre = self.stack@;
                            self.stack.truncate(top);
                            self.stack.push(value);
                            self.gas_used = self.gas_used + GAS_SLOAD;
                            self.pc = self.pc + 1;
                            proof {
                                assert(stack_view(self.stack@) =~= stack_view(
                                    spre,
                                ).drop_last().push(value@));
                                let post = self.abs(storage.s_map());
                                assert(post =~= (VmState {
                                    pc: (pre.pc + 1) as nat,
                                    stack: pre.stack.drop_last().push(
                                        spec_sload(pre.storage, contract, pre.stack.last()),
                                    ),
                                    gas_used: (pre.gas_used + GAS_SLOAD) as u64,
                                    ..pre
                                }));
                                assert(spec_run(code0, contract, pre, limit0) == spec_run(
                                    code0,
                                    contract,
                                    post,
                                    limit0,
                                ));
                            }
                        },
                        Opcode::SStore => {
                            if GAS_SSTORE > self.gas_limit - self.gas_used {
                                proof {
                                    assert(spec_run(code0, contract, pre, limit0)
                                        == RunOutcome::Fail(VmError::OutOfGas, pre));
                                }
                                return Err(VmError::OutOfGas);
                            }
                            if self.stack.len() < 2 {
                                proof {
                                    assert(spec_run(code0, contract, pre, limit0)
                                        == RunOutcome::Fail(VmError::StackUnderflow, pre));
                                }
                                return Err(VmError::StackUnderflow);
                            }
                            let top = self.stack.len() - 1;
                            let key = self.stack[top];
                            let value = self.stack[top - 1];
                            storage.sstore(contract, key, value);
                            let ghost spre = self.stack@;
                            self.stack.truncate(top - 1);
                            self.gas_used = self.gas_used + GAS_SSTORE;
                            self.pc = self.pc + 1;
                            proof {
                                assert(stack_view(self.stack@) =~= stack_view(
                                    spre,
                                ).drop_last().drop_last());
                                let post = self.abs(storage.s_map());
                                assert(post =~= (VmState {
                                    pc: (pre.pc + 1) as nat,
                                    stack: pre.stack.drop_last().drop_last(),
                                    storage: pre.storage.insert(
                                        (contract, pre.stack.last()),
                                        pre.stack[pre.stack.len() - 2],
                                    ),
                                    gas_used: (pre.gas_used + GAS_SSTORE) as u64,
                                    ..pre
                                }));
                                assert(spec_run(code0, contract, pre, limit0) == spec_run(
                                    code0,
                                    contract,
                                    post,
                                    limit0,
                                ));
                            }
                        },
                        Opcode::Jump => {
                            if GAS_JUMP > self.gas_limit - self.gas_used {
                                proof {
                                    assert(spec_run(code0, contract, pre, limit0)
                                        == RunOutcome::Fail(VmError::OutOfGas, pre));
                                }
                                return Err(VmError::OutOfGas);
                            }
                            if self.stack.len() < 1 {
                                proof {
                                    assert(spec_run(code0, contract, pre, limit0)
                                        == RunOutcome::Fail(VmError::StackUnderflow, pre));
                                }
                                return Err(VmError::StackUnderflow);
                            }
                            let top = self.stack.len() - 1;
                            let dest = word_to_usize(&self.stack[top]);
                            if dest >= self.code.len() {
                                proof {
                                    assert(spec_run(code0, contract, pre, limit0)
                                        == RunOutcome::Fail(VmError::InvalidJump, pre));
                                }
                                return Err(VmError::InvalidJump);
                            }
                            let ghost spre = self.stack@;
                            self.stack.truncate(top);
                            self.gas_used = self.gas_used + GAS_JUMP;
                            self.pc = dest;
                            proof {
                                assert(stack_view(self.stack@) =~= stack_view(spre).drop_last());
                                let post = self.abs(storage.s_map());
                                assert(post =~= (VmState {
                                    pc: dest as nat,
                                    stack: pre.stack.drop_last(),
                                    gas_used: (pre.gas_used + GAS_JUMP) as u64,
                                    ..pre
                                }));
                                assert(spec_run(code0, contract, pre, limit0) == spec_run(
                                    code0,
                                    contract,
                                    post,
                                    limit0,
                                ));
                            }
                        },
                        Opcode::JumpI => {
                            if GAS_JUMPI > self.gas_limit - self.gas_used {
                                proof {
                                    assert(spec_run(code0, contract, pre, limit0)
                                        == RunOutcome::Fail(VmError::OutOfGas, pre));
                                }
                                return Err(VmError::OutOfGas);
                            }
                            if self.stack.len() < 2 {
                                proof {
                                    assert(spec_run(code0, contract, pre, limit0)
                                        == RunOutcome::Fail(VmError::StackUnderflow, pre));
                                }
                                return Err(VmError::StackUnderflow);
                            }
                            let top = self.stack.len() - 1;
                            let dest = word_to_usize(&self.stack[top]);
                            let cond = self.stack[top - 1];
                            let zero = [0u8; 32];
                            let nonzero = !bytes32_eq_local(&cond, &zero);
                            let jumps = nonzero && dest < self.code.len();
                            let ghost spre = self.stack@;
                            self.stack.truncate(top - 1);
                            self.gas_used = self.gas_used + GAS_JUMPI;
                            if jumps {
                                self.pc = dest;
                            } else {
                                self.pc = self.pc + 1;
                            }
                            proof {
                                assert(zero@ =~= spec_zero_word());
                                assert(cond@ == spec_zero_word() ==> cond == zero);
                                assert(stack_view(self.stack@) =~= stack_view(
                                    spre,
                                ).drop_last().drop_last());
                                let sjumps = pre.stack[pre.stack.len() - 2] != spec_zero_word()
                                    && spec_word_usize(pre.stack.last()) < code0.len();
                                assert(sjumps == jumps);
                                let post = self.abs(storage.s_map());
                                assert(post =~= (VmState {
                                    pc: if sjumps {
                                        spec_word_usize(pre.stack.last()) as nat
                                    } else {
                                        (pre.pc + 1) as nat
                                    },
                                    stack: pre.stack.drop_last().drop_last(),
                                    gas_used: (pre.gas_used + GAS_JUMPI) as u64,
                                    ..pre
                                }));
                                assert(spec_run(code0, contract, pre, limit0) == spec_run(
                                    code0,
                                    contract,
                                    post,
                                    limit0,
                                ));
                            }
                        },
                        Opcode::Return => {
                            if self.stack.len() < 2 {
                                proof {
                                    assert(spec_run(code0, contract, pre, limit0)
                                        == RunOutcome::Fail(VmError::StackUnderflow, pre));
                                }
                                return Err(VmError::StackUnderflow);
                            }
                            let top = self.stack.len() - 1;
                            let off = word_to_usize(&self.stack[top]);
                            let size = word_to_usize(&self.stack[top - 1]);
                            if size > usize::MAX - off {
                                proof {
                                    assert(spec_run(code0, contract, pre, limit0)
                                        == RunOutcome::Fail(VmError::OutOfGas, pre));
                                }
                                return Err(VmError::OutOfGas);
                            }
                            self.ensure_memory(off + size);
                            let ml = self.memory.len();
                            let mut rd: Vec<u8> = Vec::new();
                            let mut k: usize = 0;
                            while k < size
                                invariant
                                    0 <= k <= size,
                                    ml == self.memory@.len(),
                                    off + size <= self.memory@.len(),
                                    rd@.len() == k,
                                    forall|j: int| 0 <= j < k ==> rd@[j] == self.memory@[off + j],
                                decreases size - k,
                            {
                                rd.push(self.memory[off + k]);
                                k = k + 1;
                            }
                            let ghost spre = self.stack@;
                            self.stack.truncate(top - 1);
                            self.return_data = Some(rd);
                            self.pc = self.pc + 1;
                            proof {
                                let mem = spec_grow(pre.memory, off + size);
                                assert(self.memory@ == mem);
                                assert(stack_view(self.stack@) =~= stack_view(
                                    spre,
                                ).drop_last().drop_last());
                                let post = self.abs(storage.s_map());
                                assert(post.return_data matches Some(v) && v =~= mem.subrange(
                                    off as int,
                                    off + size,
                                ));
                                assert(post =~= (VmState {
                                    pc: (pre.pc + 1) as nat,
                                    stack: pre.stack.drop_last().drop_last(),
                                    memory: mem,
                                    return_data: Some(mem.subrange(off as int, off + size)),
                                    ..pre
                                }));
                                assert(spec_run(code0, contract, pre, limit0)
                                    == RunOutcome::Done(post));
                            }
                            break ;
                        },
                        Opcode::Push1 | Opcode::Push32 => {
                            proof {
                                assert(Opcode::spec_push_size(op) matches Some(_));
                                assert(false);
                            }
                            return Err(VmError::InvalidBytecode);
                        },
                    }
                },
            }
        }
        Ok(self.gas_used)
    }
}

/// Byte equality of two 32-byte words (local copy to keep the hot loop
/// self-contained).
fn bytes32_eq_local(a: &[u8; 32], b: &[u8; 32]) -> (r: bool)
    ensures
        r == (a@ == b@),
{
    crate::hash::bytes32_eq(a, b)
}

/// Big-endian value of a word's low 8 bytes.
fn word_to_u64(w: &[u8; 32]) -> (r: u64)
    ensures
        r == spec_word_u64(w@),
{
    ((w[24] as u64) << 56) | ((w[25] as u64) << 48) | ((w[26] as u64) << 40) | ((w[27] as u64)
        << 32) | ((w[28] as u64) << 24) | ((w[29] as u64) << 16) | ((w[30] as u64) << 8) | (
    w[31] as u64)
}

/// A word read as a memory index.
fn word_to_usize(w: &[u8; 32]) -> (r: usize)
    ensures
        r == spec_word_usize(w@),
{
    let n = word_to_u64(w);
    #[verifier::truncate] (n as usize)
}

/// The word holding a 64-bit value, big-endian, zero-padded.
fn u64_to_word(n: u64) -> (r: [u8; 32])
    ensures
        r@ == spec_u64_word(n),
{
    let mut out = [0u8; 32];
    out[24] = ((n >> 56) & 0xff) as u8;
    out[25] = ((n >> 48) & 0xff) as u8;
    out[26] = ((n >> 40) & 0xff) as u8;
    out[27] = ((n >> 32) & 0xff) as u8;
    out[28] = ((n >> 24) & 0xff) as u8;
    out[29] = ((n >> 16) & 0xff) as u8;
    out[30] = ((n >> 8) & 0xff) as u8;
    out[31] = (n & 0xff) as u8;
    proof {
        assert(out@ =~= spec_u64_word(n)) by {
            assert(forall|i: int| 0 <= i < 24 ==> out@[i] == 0u8);
            assert(spec_u64_word(n)[31] == ((n >> (((31 - 31) * 8) as u64)) & 0xff) as u8);
            assert((n >> 0) == n) by (bit_vector);
        }
    }
    out
}

/// Word addition, modulo 2^256.
fn add_u256(a: &[u8; 32], b: &[u8; 32]) -> (r: [u8; 32])
    ensures
        r@ == spec_add_u256(a@, b@),
{
    let mut out = [0u8; 32];
    let mut carry: u16 = 0;
    let mut i: usize = 32;
    while i > 0
        invariant
            0 <= i <= 32,
            carry <= 1,
            carry == spec_add_carry(a@, b@, i as int - 1),
            forall|j: int| i <= j < 32 ==> out@[j] == spec_add_u256(a@, b@)[j],
        decreases i,
    {
        i = i - 1;
        let s: u16 = (a[i] as u16) + (b[i] as u16) + carry;
        out[i] = (s % 256) as u8;
        carry = s / 256;
    }
    proof {
        assert(out@ =~= spec_add_u256(a@, b@));
    }
    out
}

/// Word subtraction, modulo 2^256.
fn sub_u256(a: &[u8; 32], b: &[u8; 32]) -> (r: [u8; 32])
    ensures
        r@ == spec_sub_u256(a@, b@),
{
    let mut out = [0u8; 32];
    let mut borrow: i32 = 0;
    let mut i: usize = 32;
    while i > 0
        invariant
            0 <= i <= 32,
            borrow == spec_sub_borrow(a@, b@, i as int - 1),
            forall|j: int| i <= j < 32 ==> out@[j] == spec_sub_u256(a@, b@)[j],
        decreases i,
    {
        i = i - 1;
        let d: i32 = (a[i] as i32) - (b[i] as i32) - borrow;
        if d < 0 {
            out[i] = (d + 256) as u8;
            borrow = 1;
        } else {
            out[i] = d as u8;
            borrow = 0;
        }
    }
    proof {
        assert(out@ =~= spec_sub_u256(a@, b@));
    }
    out
}

/// Saturating 64-bit multiplication.
fn sat_mul_u64(a: u64, b: u64) -> (r: u64)
    ensures
        r == spec_sat_mul_u64(a, b),
{
    if b == 0 {
        return 0;
    }
    let q = u64::MAX / b;
    proof {
        let qi = q as int;
        let r0 = u64::MAX as int % b as int;
        vstd::arithmetic::div_mod::lemma_fundamental_div_mod(u64::MAX as int, b as int);
        vstd::arithmetic::div_mod::lemma_mod_bound(u64::MAX as int, b as int);
        if a <= q {
            assert(a * b <= u64::MAX) by (nonlinear_arith)
                requires
                    a <= qi,
                    0 < b,
                    0 <= a,
                    u64::MAX == b * qi + r0,
                    0 <= r0,
            ;
        } else {
            assert(a * b > u64::MAX) by (nonlinear_arith)
                requires
                    a >= qi + 1,
                    0 < b,
                    u64::MAX == b * qi + r0,
                    r0 < b,
            ;
        }
    }
    if a > q {
        u64::MAX
    } else {
        a * b
    }
}

/// Word multiplication: saturating in the low 64 bits.
fn mul_u256(a: &[u8; 32], b: &[u8; 32]) -> (r: [u8; 32])
    ensures
        r@ == spec_mul_u256(a@, b@),
{
    let a64 = word_to_u64(a);
    let b64 = word_to_u64(b);
    u64_to_word(sat_mul_u64(a64, b64))
}

} // verus!
