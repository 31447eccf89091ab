use std::collections::HashMap;

use payment_engine::client_state::{ClientState, ClientStatus};
use payment_engine::dispatch::{
    run_client_batch, split_into_client_operations, EXPECTED_OPERATIONS_PER_CLIENT,
};
use payment_engine::operation::Operation;

fn history() -> Vec<Operation> {
    vec![
        Operation::deposit(2, 1, 100),
        Operation::deposit(1, 2, 50),
        Operation::withdrawal(2, 3, 30),
        Operation::dispute(1, 2),
        Operation::deposit(0, 4, 7),
        Operation::deposit(1, 5, 5),
        Operation::chargeback(1, 2),
        Operation::withdrawal(2, 6, 80),
        Operation::deposit(1, 7, 1),
    ]
}

fn run_in_batches(history: &[Operation], batch: usize) -> HashMap<u16, ClientState> {
    let mut states: HashMap<u16, ClientState> = HashMap::new();
    for chunk in history.chunks(batch) {
        let mut operations = chunk.to_vec();
        let shards = split_into_client_operations(&mut operations);
        assert!(operations.is_empty());
        for (client, mut operations) in shards {
            let prior = states.remove(&client);
            let state = run_client_batch(prior, client, &mut operations);
            assert!(operations.is_empty());
            states.insert(client, state);
        }
    }
    states
}

#[test]
fn batch_is_split_by_client_in_order() {
    let mut operations = history();
    let shards = split_into_client_operations(&mut operations);
    assert!(operations.is_empty());
    assert_eq!(shards.len(), 3);
    assert_eq!(shards[&0], vec![Operation::deposit(0, 4, 7)]);
    assert_eq!(
        shards[&1],
        vec![
            Operation::deposit(1, 2, 50),
            Operation::dispute(1, 2),
            Operation::deposit(1, 5, 5),
            Operation::chargeback(1, 2),
            Operation::deposit(1, 7, 1),
        ]
    );
    assert_eq!(
        shards[&2],
        vec![
            Operation::deposit(2, 1, 100),
            Operation::withdrawal(2, 3, 30),
            Operation::withdrawal(2, 6, 80),
        ]
    );
}

#[test]
fn empty_batch_has_no_clients() {
    let mut operations = Vec::new();
    assert!(split_into_client_operations(&mut operations).is_empty());
    assert_eq!(EXPECTED_OPERATIONS_PER_CLIENT, 1024 * 100);
}

#[test]
fn first_batch_of_a_client_starts_a_fresh_ledger() {
    let mut operations = vec![Operation::deposit(9, 1, 40), Operation::withdrawal(9, 2, 15)];
    let state = run_client_batch(None, 9, &mut operations);
    assert!(operations.is_empty());
    assert_eq!(state.client(), 9);
    assert_eq!(state.available(), 25);
    let mut none = Vec::new();
    assert_eq!(run_client_batch(None, 9, &mut none), ClientState::new(9));
}

#[test]
fn later_batch_continues_the_ledger() {
    let mut first = vec![Operation::deposit(9, 1, 40)];
    let state = run_client_batch(None, 9, &mut first);
    let mut second = vec![Operation::dispute(9, 1), Operation::chargeback(9, 1)];
    let state = run_client_batch(Some(state), 9, &mut second);
    assert_eq!(state.available(), 0);
    assert_eq!(state.held(), 0);
    assert_eq!(state.status(), ClientStatus::Frozen);
}

#[test]
fn final_ledgers_do_not_depend_on_the_batch_size() {
    let history = history();
    let whole = run_in_batches(&history, history.len());
    assert_eq!(whole.len(), 3);
    assert_eq!(whole[&0].available(), 7);
    assert_eq!(whole[&1].available(), 5);
    assert_eq!(whole[&1].held(), 0);
    assert_eq!(whole[&1].status(), ClientStatus::Frozen);
    assert_eq!(whole[&2].available(), 70);
    for batch in 1..=history.len() {
        assert_eq!(run_in_batches(&history, batch), whole);
    }
}
