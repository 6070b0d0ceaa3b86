//! The execution engine: transfers, bonding, batches, and the interpreter.

use boing::executor::BlockExecutor;
use boing::interpreter::Interpreter;
use boing::scheduler::TransactionScheduler;
use boing::store::StateStore;
use boing::types::{AccessList, Account, AccountId, AccountState, Transaction, TransactionPayload};
use boing::vm::{Vm, VmError, GAS_PER_TRANSFER};

fn tx(sender: AccountId, to: AccountId, nonce: u64, amount: u128) -> Transaction {
    Transaction {
        nonce,
        sender,
        payload: TransactionPayload::Transfer { to, amount },
        access_list: AccessList::new(vec![sender, to], vec![sender, to]),
    }
}

fn tx_with_access(accounts: Vec<AccountId>) -> Transaction {
    Transaction {
        nonce: 0,
        sender: accounts[0],
        payload: TransactionPayload::Transfer {
            to: accounts.get(1).copied().unwrap_or(accounts[0]),
            amount: 1,
        },
        access_list: AccessList::new(accounts.clone(), accounts),
    }
}

fn funded(state: &mut StateStore, id: AccountId, balance: u128) {
    state.insert(Account { id, state: AccountState { balance, nonce: 0, stake: 0 } });
}

#[test]
fn test_execute_block() {
    let exec = BlockExecutor::new();
    let a = AccountId::from_bytes([1u8; 32]);
    let b = AccountId::from_bytes([2u8; 32]);
    let mut state = StateStore::new();
    funded(&mut state, a, 1000);
    funded(&mut state, b, 0);
    let txs = vec![tx(a, b, 0, 100)];
    let gas = exec.execute_block(&txs, &mut state).unwrap();
    assert_eq!(gas, GAS_PER_TRANSFER);
    assert_eq!(state.get(&a).unwrap().balance, 900);
    assert_eq!(state.get(&b).unwrap().balance, 100);
}

#[test]
fn test_execute_block_parallel_transfers() {
    let exec = BlockExecutor::new();
    let a = AccountId::from_bytes([1u8; 32]);
    let b = AccountId::from_bytes([2u8; 32]);
    let c = AccountId::from_bytes([3u8; 32]);
    let d = AccountId::from_bytes([4u8; 32]);
    let mut state = StateStore::new();
    funded(&mut state, a, 1000);
    funded(&mut state, b, 0);
    funded(&mut state, c, 500);
    funded(&mut state, d, 0);
    let txs = vec![tx(a, b, 0, 100), tx(c, d, 0, 50)];
    let gas = exec.execute_block(&txs, &mut state).unwrap();
    assert_eq!(state.get(&a).unwrap().balance, 900);
    assert_eq!(state.get(&b).unwrap().balance, 100);
    assert_eq!(state.get(&c).unwrap().balance, 450);
    assert_eq!(state.get(&d).unwrap().balance, 50);
    assert_eq!(gas, GAS_PER_TRANSFER * 2);
}

#[test]
fn test_interpreter_add_stop() {
    let mut state = StateStore::new();
    let contract = AccountId::from_bytes([1u8; 32]);
    funded(&mut state, contract, 0);
    let bytecode = vec![
        0x60, 0x02, // push 2
        0x60, 0x03, // push 3
        0x01, // add -> 5
        0x00, // stop
    ];
    state.set_contract_code(contract, bytecode.clone());
    let mut interpreter = Interpreter::new(bytecode, 1000);
    let gas = interpreter.run(contract, &[], &mut state).unwrap();
    assert!(gas > 0);
    assert_eq!(interpreter.stack.len(), 1);
    assert_eq!(interpreter.stack[0][31], 5);
}

#[test]
fn test_scheduler_independent_txs_in_same_batch() {
    let s = TransactionScheduler::new();
    let a = AccountId::from_bytes([1u8; 32]);
    let b = AccountId::from_bytes([2u8; 32]);
    let c = AccountId::from_bytes([3u8; 32]);
    let txs = vec![tx_with_access(vec![a, b]), tx_with_access(vec![c])];
    let batches = s.schedule(&txs);
    assert_eq!(batches.len(), 1, "Independent txs should be in one batch");
    assert_eq!(batches[0].len(), 2);
}

#[test]
fn test_scheduler_conflicting_txs_separate_batches() {
    let s = TransactionScheduler::new();
    let a = AccountId::from_bytes([1u8; 32]);
    let b = AccountId::from_bytes([2u8; 32]);
    let txs = vec![tx_with_access(vec![a, b]), tx_with_access(vec![a])];
    let batches = s.schedule(&txs);
    assert_eq!(batches.len(), 2, "Conflicting txs should be in separate batches");
}

#[test]
fn test_bond_and_unbond() {
    let vm = Vm::new();
    let a = AccountId::from_bytes([1u8; 32]);
    let mut state = StateStore::new();
    funded(&mut state, a, 1000);
    let bond_tx = Transaction {
        nonce: 0,
        sender: a,
        payload: TransactionPayload::Bond { amount: 300 },
        access_list: AccessList::new(vec![a], vec![a]),
    };
    vm.execute(&bond_tx, &mut state).unwrap();
    assert_eq!(state.get(&a).unwrap().balance, 700);
    assert_eq!(state.get(&a).unwrap().stake, 300);
    assert_eq!(state.get(&a).unwrap().nonce, 1);
    let unbond_tx = Transaction {
        nonce: 1,
        sender: a,
        payload: TransactionPayload::Unbond { amount: 100 },
        access_list: AccessList::new(vec![a], vec![a]),
    };
    vm.execute(&unbond_tx, &mut state).unwrap();
    assert_eq!(state.get(&a).unwrap().balance, 800);
    assert_eq!(state.get(&a).unwrap().stake, 200);
}

#[test]
fn conflicting_transfers_serialize_in_order() {
    let exec = BlockExecutor::new();
    let a = AccountId::from_bytes([1u8; 32]);
    let b = AccountId::from_bytes([2u8; 32]);
    let mut state = StateStore::new();
    funded(&mut state, a, 100);
    funded(&mut state, b, 0);
    // Both touch a: separate batches, executed in submission order.
    let txs = vec![tx(a, b, 0, 60), tx(a, b, 1, 40)];
    let gas = exec.execute_block(&txs, &mut state).unwrap();
    assert_eq!(gas, GAS_PER_TRANSFER * 2);
    assert_eq!(state.get(&a).unwrap().balance, 0);
    assert_eq!(state.get(&b).unwrap().balance, 100);
    assert_eq!(state.get(&a).unwrap().nonce, 2);
}

#[test]
fn balances_conserved_across_batch() {
    let exec = BlockExecutor::new();
    let a = AccountId::from_bytes([1u8; 32]);
    let b = AccountId::from_bytes([2u8; 32]);
    let c = AccountId::from_bytes([3u8; 32]);
    let d = AccountId::from_bytes([4u8; 32]);
    let mut state = StateStore::new();
    funded(&mut state, a, 1_000_000);
    funded(&mut state, b, 5);
    funded(&mut state, c, 77);
    funded(&mut state, d, 3);
    let before: u128 = [a, b, c, d].iter().map(|id| state.get(id).unwrap().balance).sum();
    let txs = vec![tx(a, b, 0, 123), tx(c, d, 0, 45)];
    exec.execute_block(&txs, &mut state).unwrap();
    let after: u128 = [a, b, c, d].iter().map(|id| state.get(id).unwrap().balance).sum();
    assert_eq!(before, after);
}

#[test]
fn insufficient_balance_rejected() {
    let vm = Vm::new();
    let a = AccountId::from_bytes([1u8; 32]);
    let b = AccountId::from_bytes([2u8; 32]);
    let mut state = StateStore::new();
    funded(&mut state, a, 10);
    let t = tx(a, b, 0, 11);
    assert!(matches!(vm.execute(&t, &mut state), Err(VmError::InsufficientBalance)));
}

#[test]
fn wrong_nonce_rejected() {
    let vm = Vm::new();
    let a = AccountId::from_bytes([1u8; 32]);
    let b = AccountId::from_bytes([2u8; 32]);
    let mut state = StateStore::new();
    funded(&mut state, a, 10);
    let t = tx(a, b, 5, 1);
    assert!(matches!(
        vm.execute(&t, &mut state),
        Err(VmError::InvalidNonce { expected: 0, got: 5 })
    ));
}

#[test]
fn missing_sender_rejected() {
    let vm = Vm::new();
    let a = AccountId::from_bytes([1u8; 32]);
    let b = AccountId::from_bytes([2u8; 32]);
    let mut state = StateStore::new();
    let t = tx(a, b, 0, 1);
    assert!(matches!(vm.execute(&t, &mut state), Err(VmError::AccountNotFound)));
}

#[test]
fn contract_deploy_and_call() {
    let vm = Vm::new();
    let a = AccountId::from_bytes([1u8; 32]);
    let mut state = StateStore::new();
    funded(&mut state, a, 1000);
    let deploy = Transaction {
        nonce: 0,
        sender: a,
        payload: TransactionPayload::ContractDeploy { bytecode: vec![0x00] },
        access_list: AccessList::new(vec![a], vec![a]),
    };
    let gas = vm.execute(&deploy, &mut state).unwrap();
    assert_eq!(gas, boing::vm::GAS_PER_CONTRACT_DEPLOY);
    let addr = boing::vm::derive_contract_address(&a, 0);
    assert!(state.get_contract_code(&addr).is_some());
    let call = Transaction {
        nonce: 1,
        sender: a,
        payload: TransactionPayload::ContractCall { contract: addr, calldata: vec![] },
        access_list: AccessList::new(vec![a], vec![a]),
    };
    let gas2 = vm.execute(&call, &mut state).unwrap();
    assert_eq!(gas2, 0); // a lone STOP costs nothing
}

#[test]
fn interpreter_out_of_gas() {
    let mut state = StateStore::new();
    let contract = AccountId::from_bytes([1u8; 32]);
    let bytecode = vec![0x60, 0x01, 0x60, 0x02, 0x01, 0x00];
    let mut interpreter = Interpreter::new(bytecode, 2);
    assert!(matches!(
        interpreter.run(contract, &[], &mut state),
        Err(VmError::OutOfGas)
    ));
}

#[test]
fn interpreter_invalid_jump() {
    let mut state = StateStore::new();
    let contract = AccountId::from_bytes([1u8; 32]);
    let bytecode = vec![0x60, 0xff, 0x56];
    let mut interpreter = Interpreter::new(bytecode, 1000);
    assert!(matches!(
        interpreter.run(contract, &[], &mut state),
        Err(VmError::InvalidJump)
    ));
}

#[test]
fn interpreter_stack_underflow() {
    let mut state = StateStore::new();
    let contract = AccountId::from_bytes([1u8; 32]);
    let bytecode = vec![0x01];
    let mut interpreter = Interpreter::new(bytecode, 1000);
    assert!(matches!(
        interpreter.run(contract, &[], &mut state),
        Err(VmError::StackUnderflow)
    ));
}

#[test]
fn interpreter_invalid_bytecode() {
    let mut state = StateStore::new();
    let contract = AccountId::from_bytes([1u8; 32]);
    let bytecode = vec![0xab];
    let mut interpreter = Interpreter::new(bytecode, 1000);
    assert!(matches!(
        interpreter.run(contract, &[], &mut state),
        Err(VmError::InvalidBytecode)
    ));
}

#[test]
fn interpreter_storage_roundtrip() {
    let mut state = StateStore::new();
    let contract = AccountId::from_bytes([1u8; 32]);
    // store 7 under key 1, then load it back
    let bytecode = vec![
        0x60, 0x07, // push 7 (value)
        0x60, 0x01, // push 1 (key)
        0x55, // sstore
        0x60, 0x01, // push 1 (key)
        0x54, // sload
        0x00, // stop
    ];
    let mut interpreter = Interpreter::new(bytecode, 100_000);
    interpreter.run(contract, &[], &mut state).unwrap();
    assert_eq!(interpreter.stack.len(), 1);
    assert_eq!(interpreter.stack[0][31], 7);
}
