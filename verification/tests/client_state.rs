use payment_engine::client_state::{
    ClientState, ClientStateCsv, ClientStatus, Transaction, TransactionStatus,
};
use payment_engine::operation::Operation;

fn frozen_account() -> ClientState {
    let mut client_state = ClientState::new(0);
    vec![
        Operation::deposit(0, 1, 10),
        Operation::deposit(0, 2, 10),
        Operation::withdrawal(0, 3, 5),
        Operation::dispute(0, 2),
        Operation::chargeback(0, 2),
    ]
    .drain(..)
    .for_each(|operation| client_state.apply_operation(operation));

    client_state
}

#[test]
fn test_frozen_ignores_operations() {
    let mut frozen = frozen_account();
    assert_eq!(frozen.status(), ClientStatus::Frozen);
    let before = frozen.clone();
    frozen.apply_operation(Operation::deposit(0, 4, 10));
    assert_eq!(frozen, before);
    frozen.apply_operation(Operation::withdrawal(0, 5, 5));
    assert_eq!(frozen, before);
    frozen.apply_operation(Operation::dispute(0, 1));
    assert_eq!(frozen, before);
    frozen.apply_operation(Operation::resolve(0, 2));
    assert_eq!(frozen, before);
    frozen.apply_operation(Operation::chargeback(0, 2));
}

#[test]
fn test_cant_withdraw_more_than_available() {
    let mut client = ClientState::new(0);
    client.apply_operation(Operation::deposit(0, 1, 25));
    client.apply_operation(Operation::deposit(0, 2, 25));
    {
        let state = client.clone();
        let mut client = client.clone();

        client.apply_operation(Operation::withdrawal(0, 3, 51));
        // Operation was not applied!
        assert_eq!(state, client);
        client.apply_operation(Operation::withdrawal(0, 3, 50));
        assert_eq!(client.available(), 0);
    }

    {
        let mut client = client.clone();
        client.apply_operation(Operation::dispute(0, 1));
        let state = client.clone();
        client.apply_operation(Operation::withdrawal(0, 4, 26));
        // Operation was not applied!
        assert_eq!(state, client);
        client.apply_operation(Operation::withdrawal(0, 4, 25));
        assert_eq!(client.available(), 0);
    }
}

#[test]
fn test_can_only_dispute_existing_transactions() {
    let mut client = ClientState::new(0);
    client.apply_operation(Operation::deposit(0, 1, 25));
    let state = client.clone();
    client.apply_operation(Operation::dispute(0, 2));
    // Operation was not applied!
    assert_eq!(state, client);
}

#[test]
fn test_resolving_is_inverse_of_dispute() {
    let mut client = ClientState::new(0);
    client.apply_operation(Operation::deposit(0, 1, 25));
    let state = client.clone();
    client.apply_operation(Operation::dispute(0, 1));
    assert_ne!(state, client);
    client.apply_operation(Operation::resolve(0, 1));
    // State after resolving a dispute is equal to the state before the dispute (if no operations are inbetween)
    assert_eq!(state, client);
}

#[test]
fn test_can_only_resolve_disputes() {
    let mut client = ClientState::new(0);
    client.apply_operation(Operation::deposit(0, 1, 25));
    let state = client.clone();
    client.apply_operation(Operation::resolve(0, 2));
    // Operation was not applied!
    assert_eq!(state, client);
}

#[test]
fn test_dispute_can_only_be_applied_once() {
    let mut client = ClientState::new(0);
    client.apply_operation(Operation::deposit(0, 1, 25));
    client.apply_operation(Operation::dispute(0, 1));
    let state = client.clone();
    client.apply_operation(Operation::dispute(0, 1));
    // Operation was not applied!
    assert_eq!(state, client);
}

#[test]
fn test_can_only_chargeback_disputes() {
    let mut client = ClientState::new(0);
    client.apply_operation(Operation::deposit(0, 1, 25));
    let state = client.clone();
    client.apply_operation(Operation::chargeback(0, 2));
    // Operation was not applied!
    assert_eq!(state, client);
}

#[test]
fn new_account_is_empty() {
    let client = ClientState::new(7);
    assert_eq!(client.client(), 7);
    assert_eq!(client.available(), 0);
    assert_eq!(client.held(), 0);
    assert_eq!(client.total(), 0);
    assert_eq!(client.status(), ClientStatus::Normal);
    assert_eq!(client.transaction(1), None);
}

#[test]
fn deposit_is_retained_and_credited() {
    let mut client = ClientState::new(3);
    let deposit = Operation::deposit(3, 9, 12_340);
    client.apply_operation(deposit);
    assert_eq!(client.available(), 12_340);
    assert_eq!(client.held(), 0);
    assert_eq!(
        client.transaction(9),
        Some(Transaction { operation: deposit, status: TransactionStatus::Normal })
    );
}

#[test]
fn withdrawal_is_not_retained() {
    let mut client = ClientState::new(3);
    client.apply_operation(Operation::deposit(3, 1, 100));
    client.apply_operation(Operation::withdrawal(3, 2, 40));
    assert_eq!(client.available(), 60);
    assert_eq!(client.transaction(2), None);
    // A withdrawal cannot be disputed.
    let state = client.clone();
    client.apply_operation(Operation::dispute(3, 2));
    assert_eq!(state, client);
}

#[test]
fn dispute_moves_funds_to_held() {
    let mut client = ClientState::new(0);
    client.apply_operation(Operation::deposit(0, 1, 25));
    client.apply_operation(Operation::deposit(0, 2, 10));
    client.apply_operation(Operation::dispute(0, 1));
    assert_eq!(client.available(), 10);
    assert_eq!(client.held(), 25);
    assert_eq!(client.total(), 35);
    assert_eq!(client.transaction(1).unwrap().status, TransactionStatus::Disputed);
    assert_eq!(client.transaction(2).unwrap().status, TransactionStatus::Normal);
}

#[test]
fn dispute_after_withdrawal_drives_available_negative() {
    let mut client = ClientState::new(0);
    client.apply_operation(Operation::deposit(0, 1, 25));
    client.apply_operation(Operation::withdrawal(0, 2, 20));
    client.apply_operation(Operation::dispute(0, 1));
    assert_eq!(client.available(), -20);
    assert_eq!(client.held(), 25);
    assert_eq!(client.total(), 5);
    assert_eq!(client.status(), ClientStatus::Normal);
}

#[test]
fn chargeback_removes_held_and_freezes() {
    let mut client = ClientState::new(0);
    client.apply_operation(Operation::deposit(0, 1, 25));
    client.apply_operation(Operation::deposit(0, 2, 10));
    client.apply_operation(Operation::dispute(0, 1));
    client.apply_operation(Operation::chargeback(0, 1));
    assert_eq!(client.available(), 10);
    assert_eq!(client.held(), 0);
    assert_eq!(client.total(), 10);
    assert_eq!(client.status(), ClientStatus::Frozen);
    // The charged-back deposit is no longer under dispute.
    assert_eq!(client.transaction(1).unwrap().status, TransactionStatus::Normal);
}

#[test]
fn frozen_account_keeps_its_transactions() {
    let mut frozen = frozen_account();
    let kept = frozen.transaction(1);
    frozen.apply_operation(Operation::deposit(0, 1, 999));
    frozen.apply_operation(Operation::deposit(0, 77, 5));
    assert_eq!(frozen.transaction(1), kept);
    assert_eq!(frozen.transaction(77), None);
    assert_eq!(frozen.available(), 5);
    assert_eq!(frozen.held(), 0);
}

#[test]
fn second_deposit_with_the_same_id_replaces_the_first() {
    let mut client = ClientState::new(0);
    client.apply_operation(Operation::deposit(0, 1, 25));
    client.apply_operation(Operation::deposit(0, 1, 40));
    assert_eq!(client.available(), 65);
    assert_eq!(client.transaction(1).unwrap().operation.amount, 40);
    client.apply_operation(Operation::dispute(0, 1));
    assert_eq!(client.available(), 25);
    assert_eq!(client.held(), 40);
}

#[test]
fn dispute_then_resolve_does_not_undo_an_earlier_dispute() {
    let mut client = ClientState::new(0);
    client.apply_operation(Operation::deposit(0, 1, 25));
    client.apply_operation(Operation::dispute(0, 1));
    let disputed = client.clone();
    client.apply_operation(Operation::dispute(0, 1));
    client.apply_operation(Operation::resolve(0, 1));
    assert_ne!(disputed, client);
    assert_eq!(client.available(), 25);
    assert_eq!(client.held(), 0);
}

#[test]
fn references_to_unknown_transactions_change_nothing() {
    let mut client = ClientState::new(0);
    client.apply_operation(Operation::deposit(0, 1, 25));
    client.apply_operation(Operation::dispute(0, 1));
    let state = client.clone();
    client.apply_operation(Operation::dispute(0, 999));
    assert_eq!(state, client);
    client.apply_operation(Operation::resolve(0, 999));
    assert_eq!(state, client);
    client.apply_operation(Operation::chargeback(0, 999));
    assert_eq!(state, client);
}

#[test]
fn over_withdrawal_then_smaller_withdrawal() {
    let mut client = ClientState::new(0);
    client.apply_operation(Operation::deposit(0, 1, 100));
    let state = client.clone();
    client.apply_operation(Operation::withdrawal(0, 2, 101));
    assert_eq!(state, client);
    client.apply_operation(Operation::withdrawal(0, 3, 100));
    assert_eq!(client.available(), 0);
}

#[test]
fn balances_wrap_around() {
    let mut client = ClientState::new(0);
    client.apply_operation(Operation::deposit(0, 1, i64::MAX));
    client.apply_operation(Operation::deposit(0, 2, 1));
    assert_eq!(client.available(), i64::MIN);
    assert_eq!(client.total(), i64::MIN);
}

#[test]
fn total_is_available_plus_held_throughout() {
    let operations = vec![
        Operation::deposit(0, 1, 100),
        Operation::deposit(0, 2, 250),
        Operation::withdrawal(0, 3, 30),
        Operation::dispute(0, 2),
        Operation::withdrawal(0, 4, 500),
        Operation::resolve(0, 2),
        Operation::dispute(0, 1),
        Operation::chargeback(0, 1),
        Operation::deposit(0, 5, 1),
    ];
    let mut client = ClientState::new(0);
    let expected_totals = [100, 350, 320, 320, 320, 320, 320, 220, 220];
    for (operation, expected) in operations.into_iter().zip(expected_totals) {
        client.apply_operation(operation);
        assert_eq!(client.total(), client.available() + client.held());
        assert_eq!(client.total(), expected);
    }
}

#[test]
fn report_row_of_an_account() {
    let row = ClientStateCsv::from(frozen_account());
    assert_eq!(
        row,
        ClientStateCsv { client: 0, available: 5, held: 0, total: 5, locked: true }
    );
    let mut client = ClientState::new(4);
    client.apply_operation(Operation::deposit(4, 1, 30));
    client.apply_operation(Operation::deposit(4, 2, 12));
    client.apply_operation(Operation::dispute(4, 2));
    assert_eq!(
        ClientStateCsv::from(client),
        ClientStateCsv { client: 4, available: 30, held: 12, total: 42, locked: false }
    );
}
