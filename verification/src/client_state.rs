//! The per-client ledger and the state machine that governs it.
use std::collections::hash_map::Entry;
use std::collections::HashMap;

use vstd::prelude::*;

use crate::operation::{Operation, OperationType};

verus! {

broadcast use vstd::std_specs::hash::group_hash_axioms;

/// Whether a retained deposit is currently contested.
#[derive(Debug, Clone, Copy, PartialEq, Eq, Structural)]
pub enum TransactionStatus {
    Normal,
    Disputed,
}

/// Whether an account still accepts operations. `Frozen` is terminal.
#[derive(Debug, Clone, Copy, PartialEq, Eq, Structural)]
pub enum ClientStatus {
    Normal,
    Frozen,
}

/// A deposit retained on the ledger, so that it can be disputed later.
#[derive(Debug, Clone, Copy, PartialEq, Eq, Structural)]
pub struct Transaction {
    pub operation: Operation,
    pub status: TransactionStatus,
}

/// The mathematical value of a [`ClientState`]: its balances, its status and
/// the deposits it retains, by transaction id.
pub struct ClientView {
    pub client: u16,
    pub available: i64,
    pub held: i64,
    pub status: ClientStatus,
    pub transactions: Map<u32, Transaction>,
}

impl ClientView {
    /// The account of `client` before any operation.
    pub open spec fn fresh(client: u16) -> ClientView {
        ClientView {
            client,
            available: 0,
            held: 0,
            status: ClientStatus::Normal,
            transactions: Map::empty(),
        }
    }

    /// The whole balance: what is available plus what is held, in 64-bit
    /// two's-complement arithmetic.
    pub open spec fn total(self) -> i64 {
        self.available.wrapping_add(self.held)
    }

    /// The account counts as locked once it is frozen.
    pub open spec fn locked(self) -> bool {
        self.status == ClientStatus::Frozen
    }

    /// `tx_id` names a retained deposit.
    pub open spec fn knows(self, tx_id: u32) -> bool {
        self.transactions.contains_key(tx_id)
    }

    /// `tx_id` names a retained deposit that is under dispute.
    pub open spec fn disputed(self, tx_id: u32) -> bool {
        self.knows(tx_id) && self.transactions[tx_id].status == TransactionStatus::Disputed
    }

    /// The amount of the retained deposit `tx_id`.
    pub open spec fn amount_of(self, tx_id: u32) -> i64 {
        self.transactions[tx_id].operation.amount
    }

    /// The retained deposits, with the status of the deposit `tx_id` replaced by
    /// `status`.
    pub open spec fn mark(self, tx_id: u32, status: TransactionStatus) -> Map<u32, Transaction> {
        self.transactions.insert(
            tx_id,
            Transaction { operation: self.transactions[tx_id].operation, status },
        )
    }

    /// Whether `operation` changes anything when it is applied to this account.
    ///
    /// A frozen account ignores everything. A withdrawal needs sufficient
    /// available funds, a dispute a retained deposit that is not disputed yet,
    /// a resolve or a chargeback a retained deposit under dispute.
    pub open spec fn accepts(self, operation: Operation) -> bool {
        self.status == ClientStatus::Normal && match operation.type_ {
            OperationType::Deposit => true,
            OperationType::Withdrawal => self.available >= operation.amount,
            OperationType::Dispute => self.knows(operation.tx_id) && !self.disputed(
                operation.tx_id,
            ),
            OperationType::Resolve => self.disputed(operation.tx_id),
            OperationType::Chargeback => self.disputed(operation.tx_id),
        }
    }

    /// The account after `operation`. Balances move in 64-bit two's-complement
    /// arithmetic; an operation that is not accepted leaves the account as it is.
    pub open spec fn apply(self, operation: Operation) -> ClientView {
        if !self.accepts(operation) {
            self
        } else {
            match operation.type_ {
                OperationType::Deposit => ClientView {
                    available: self.available.wrapping_add(operation.amount),
                    transactions: self.transactions.insert(
                        operation.tx_id,
                        Transaction { operation, status: TransactionStatus::Normal },
                    ),
                    ..self
                },
                OperationType::Withdrawal => ClientView {
                    available: self.available.wrapping_sub(operation.amount),
                    ..self
                },
                OperationType::Dispute => ClientView {
                    available: self.available.wrapping_sub(self.amount_of(operation.tx_id)),
                    held: self.held.wrapping_add(self.amount_of(operation.tx_id)),
                    transactions: self.mark(operation.tx_id, TransactionStatus::Disputed),
                    ..self
                },
                OperationType::Resolve => ClientView {
                    available: self.available.wrapping_add(self.amount_of(operation.tx_id)),
                    held: self.held.wrapping_sub(self.amount_of(operation.tx_id)),
                    transactions: self.mark(operation.tx_id, TransactionStatus::Normal),
                    ..self
                },
                OperationType::Chargeback => ClientView {
                    held: self.held.wrapping_sub(self.amount_of(operation.tx_id)),
                    status: ClientStatus::Frozen,
                    transactions: self.mark(operation.tx_id, TransactionStatus::Normal),
                    ..self
                },
            }
        }
    }

    /// The account after every operation of `operations`, in order.
    pub open spec fn replay(self, operations: Seq<Operation>) -> ClientView
        decreases operations.len(),
    {
        if operations.len() == 0 {
            self
        } else {
            self.replay(operations.drop_last()).apply(operations.last())
        }
    }

    /// What `operation` adds to the whole balance of this account: the amount
    /// of a deposit, minus the amount of a withdrawal or of a deposit that is
    /// charged back, and nothing where the operation is not accepted. Disputes
    /// and resolves only move funds between available and held.
    pub open spec fn flow(self, operation: Operation) -> int {
        if !self.accepts(operation) {
            0
        } else {
            match operation.type_ {
                OperationType::Deposit => operation.amount as int,
                OperationType::Withdrawal => -operation.amount,
                OperationType::Chargeback => -self.amount_of(operation.tx_id),
                _ => 0,
            }
        }
    }

    /// The sum of what each of `operations` adds to the whole balance when they
    /// are applied to this account in order: the deposits that were applied,
    /// minus the withdrawals that were applied, minus the chargebacks.
    pub open spec fn net_flow(self, operations: Seq<Operation>) -> int
        decreases operations.len(),
    {
        if operations.len() == 0 {
            0
        } else {
            self.net_flow(operations.drop_last()) + self.replay(operations.drop_last()).flow(
                operations.last(),
            )
        }
    }

    /// Every retained transaction is a deposit, filed under its own id.
    pub open spec fn well_formed(self) -> bool {
        forall|tx_id: u32| #[trigger]
            self.transactions.contains_key(tx_id) ==> {
                &&& self.transactions[tx_id].operation.type_ == OperationType::Deposit
                &&& self.transactions[tx_id].operation.tx_id == tx_id
            }
    }
}

/// The 64-bit two's-complement number that stands for `value`: the one number
/// of that range that differs from `value` by a multiple of 2^64.
#[verifier::opaque]
pub open spec fn wrapped(value: int) -> i64 {
    let low = value % 0x1_0000_0000_0000_0000;
    if low > i64::MAX {
        (low - 0x1_0000_0000_0000_0000) as i64
    } else {
        low as i64
    }
}

/// A fresh account is well formed, and every operation keeps an account so.
pub proof fn lemma_well_formed(state: ClientView, operation: Operation)
    ensures
        ClientView::fresh(state.client).well_formed(),
        state.well_formed() ==> state.apply(operation).well_formed(),
{
}

/// A replay keeps a well-formed account well formed.
pub proof fn lemma_replay_well_formed(state: ClientView, operations: Seq<Operation>)
    requires
        state.well_formed(),
    ensures
        state.replay(operations).well_formed(),
    decreases operations.len(),
{
    if operations.len() > 0 {
        lemma_replay_well_formed(state, operations.drop_last());
        lemma_well_formed(state.replay(operations.drop_last()), operations.last());
    }
}

/// Replaying two runs of operations one after the other is replaying them as
/// one run.
pub proof fn lemma_replay_concat(state: ClientView, first: Seq<Operation>, second: Seq<Operation>)
    ensures
        state.replay(first + second) == state.replay(first).replay(second),
    decreases second.len(),
{
    if second.len() > 0 {
        lemma_replay_concat(state, first, second.drop_last());
        assert((first + second).drop_last() =~= first + second.drop_last());
    }
}

/// Wrapping addition and subtraction give the number that stands for the exact
/// sum or difference, and a number of the 64-bit range stands for itself.
pub proof fn lemma_wrapping_is_wrapped(x: i64, y: i64)
    ensures
        wrapped(x as int) == x,
        x.wrapping_add(y) == wrapped(x + y),
        x.wrapping_sub(y) == wrapped(x - y),
{
    reveal(wrapped);
}

/// Numbers that differ by 2^64 stand for the same 64-bit number.
proof fn lemma_wrapped_period(value: int)
    ensures
        wrapped(value + 0x1_0000_0000_0000_0000) == wrapped(value),
        wrapped(value - 0x1_0000_0000_0000_0000) == wrapped(value),
{
    reveal(wrapped);
}

/// Reducing a term of a sum before the sum is reduced changes nothing.
pub proof fn lemma_wrapped_sum(a: int, b: int)
    ensures
        wrapped(wrapped(a) + b) == wrapped(a + b),
        wrapped(a + wrapped(b)) == wrapped(a + b),
{
    reveal(wrapped);
    assert(wrapped(wrapped(a) + b) == wrapped(a + b)) by {
        let low = a % 0x1_0000_0000_0000_0000;
        let high = a / 0x1_0000_0000_0000_0000;
        assert(a == high * 0x1_0000_0000_0000_0000 + low);
        assert((low + b) % 0x1_0000_0000_0000_0000 == (a + b) % 0x1_0000_0000_0000_0000) by {
            vstd::arithmetic::div_mod::lemma_mod_multiples_vanish(
                high,
                low + b,
                0x1_0000_0000_0000_0000,
            );
        }
        lemma_wrapped_period(low + b);
    }
    assert(wrapped(a + wrapped(b)) == wrapped(a + b)) by {
        let low = b % 0x1_0000_0000_0000_0000;
        let high = b / 0x1_0000_0000_0000_0000;
        assert(b == high * 0x1_0000_0000_0000_0000 + low);
        assert((a + low) % 0x1_0000_0000_0000_0000 == (a + b) % 0x1_0000_0000_0000_0000) by {
            vstd::arithmetic::div_mod::lemma_mod_multiples_vanish(
                high,
                a + low,
                0x1_0000_0000_0000_0000,
            );
        }
        lemma_wrapped_period(a + low);
    }
}

/// The whole balance is what is available plus what is held, and an operation
/// changes it by exactly its flow, in 64-bit two's-complement arithmetic.
pub proof fn lemma_total_after_apply(state: ClientView, operation: Operation)
    ensures
        state.total() == wrapped(state.available + state.held),
        state.apply(operation).total() == wrapped(state.total() + state.flow(operation)),
{
    let after = state.apply(operation);
    let amount = if operation.type_ == OperationType::Deposit || operation.type_
        == OperationType::Withdrawal {
        operation.amount
    } else {
        state.amount_of(operation.tx_id)
    };
    lemma_wrapping_is_wrapped(state.available, state.held);
    lemma_wrapping_is_wrapped(after.available, after.held);
    lemma_wrapping_is_wrapped(state.available, amount);
    lemma_wrapping_is_wrapped(state.held, amount);
    lemma_wrapping_is_wrapped(state.total(), 0);
    if state.accepts(operation) {
        match operation.type_ {
            OperationType::Deposit => {
                lemma_wrapped_sum(state.available + amount, state.held as int);
                lemma_wrapped_sum(state.available + state.held, amount as int);
            },
            OperationType::Withdrawal => {
                lemma_wrapped_sum(state.available - amount, state.held as int);
                lemma_wrapped_sum(state.available + state.held, -amount);
            },
            OperationType::Dispute => {
                lemma_wrapped_sum(state.available - amount, after.held as int);
                lemma_wrapped_sum(state.available - amount, state.held + amount);
            },
            OperationType::Resolve => {
                lemma_wrapped_sum(state.available + amount, after.held as int);
                lemma_wrapped_sum(state.available + amount, state.held - amount);
            },
            OperationType::Chargeback => {
                lemma_wrapped_sum(state.available as int, state.held - amount);
                lemma_wrapped_sum(state.available + state.held, -amount);
            },
        }
    }
}

/// Through a whole replay, the balance of an account is what it was before plus
/// the deposits that were applied, minus the withdrawals that were applied,
/// minus the chargebacks, in 64-bit two's-complement arithmetic. For a fresh
/// account that is the net flow alone.
pub proof fn lemma_total_after_replay(state: ClientView, operations: Seq<Operation>)
    ensures
        state.replay(operations).total() == wrapped(state.total() + state.net_flow(operations)),
        ClientView::fresh(state.client).replay(operations).total() == wrapped(
            ClientView::fresh(state.client).net_flow(operations),
        ),
    decreases operations.len(),
{
    let fresh = ClientView::fresh(state.client);
    lemma_wrapping_is_wrapped(state.total(), 0);
    lemma_wrapping_is_wrapped(fresh.total(), 0);
    if operations.len() > 0 {
        let before = operations.drop_last();
        lemma_total_after_replay(state, before);
        lemma_total_after_apply(state.replay(before), operations.last());
        lemma_total_after_apply(fresh.replay(before), operations.last());
        lemma_wrapped_sum(
            state.total() + state.net_flow(before),
            state.replay(before).flow(operations.last()),
        );
        lemma_wrapped_sum(fresh.net_flow(before), fresh.replay(before).flow(operations.last()));
    }
}

/// A frozen account ignores every operation: its balances, its status and the
/// deposits it retains all stay as they are.
pub proof fn lemma_frozen_ignores(state: ClientView, operation: Operation)
    requires
        state.status == ClientStatus::Frozen,
    ensures
        state.apply(operation) == state,
{
}

/// Once an account is frozen, no run of operations changes anything about it.
pub proof fn lemma_frozen_is_final(state: ClientView, operations: Seq<Operation>)
    requires
        state.status == ClientStatus::Frozen,
    ensures
        state.replay(operations) == state,
    decreases operations.len(),
{
    if operations.len() > 0 {
        lemma_frozen_is_final(state, operations.drop_last());
    }
}

/// A dispute of a deposit followed at once by its resolve leaves the account
/// exactly as it was, provided that the deposit was not under dispute already.
/// (Where it was, the dispute changes nothing and the resolve ends the earlier
/// dispute.)
pub proof fn lemma_resolve_undoes_dispute(state: ClientView, dispute: Operation, resolve: Operation)
    requires
        dispute.type_ == OperationType::Dispute,
        resolve.type_ == OperationType::Resolve,
        dispute.tx_id == resolve.tx_id,
        !(state.status == ClientStatus::Normal && state.disputed(dispute.tx_id)),
    ensures
        state.apply(dispute).apply(resolve) == state,
{
    let after = state.apply(dispute).apply(resolve);
    assert(after.transactions =~= state.transactions);
}

/// A dispute that follows a dispute of the same deposit changes nothing.
pub proof fn lemma_dispute_once(state: ClientView, first: Operation, second: Operation)
    requires
        first.type_ == OperationType::Dispute,
        second.type_ == OperationType::Dispute,
        first.tx_id == second.tx_id,
    ensures
        state.apply(first).apply(second) == state.apply(first),
{
}

/// A dispute, a resolve or a chargeback that names no retained deposit changes
/// nothing.
pub proof fn lemma_unknown_transaction(state: ClientView, operation: Operation)
    requires
        operation.type_ != OperationType::Deposit,
        operation.type_ != OperationType::Withdrawal,
        !state.knows(operation.tx_id),
    ensures
        state.apply(operation) == state,
{
}

/// A retained deposit is under dispute exactly from a dispute that is accepted
/// until the next resolve or chargeback that is accepted, or until a new
/// deposit takes its id. No other operation touches that status.
pub proof fn lemma_disputed_after_apply(state: ClientView, operation: Operation, tx_id: u32)
    ensures
        state.apply(operation).disputed(tx_id) == if state.accepts(operation) && operation.tx_id
            == tx_id && operation.type_ != OperationType::Withdrawal {
            operation.type_ == OperationType::Dispute
        } else {
            state.disputed(tx_id)
        },
{
}

/// A withdrawal of more than is available changes nothing.
pub proof fn lemma_overdraft_ignored(state: ClientView, operation: Operation)
    requires
        operation.type_ == OperationType::Withdrawal,
        state.available < operation.amount,
    ensures
        state.apply(operation) == state,
{
}

/// An operation never changes whose account it is, and it leaves the retained
/// deposits of every other id alone.
pub proof fn lemma_apply_is_local(state: ClientView, operation: Operation, tx_id: u32)
    requires
        tx_id != operation.tx_id,
    ensures
        state.apply(operation).client == state.client,
        state.apply(operation).knows(tx_id) == state.knows(tx_id),
        state.knows(tx_id) ==> state.apply(operation).transactions[tx_id]
            == state.transactions[tx_id],
{
}

/// The ledger of one client.
#[derive(Debug, PartialEq, Clone)]
pub struct ClientState {
    client: u16,
    available: i64,
    held: i64,
    status: ClientStatus,
    transactions: HashMap<u32, Transaction>,
}

impl View for ClientState {
    type V = ClientView;

    closed spec fn view(&self) -> ClientView {
        ClientView {
            client: self.client,
            available: self.available,
            held: self.held,
            status: self.status,
            transactions: self.transactions@,
        }
    }
}

impl ClientState {
    /// An empty account for `client`.
    pub fn new(client: u16) -> (state: ClientState)
        ensures
            state@ == ClientView::fresh(client),
    {
        ClientState {
            client,
            available: 0,
            held: 0,
            status: ClientStatus::Normal,
            transactions: HashMap::new(),
        }
    }

    /// The client whose account this is.
    pub fn client(&self) -> (client: u16)
        ensures
            client == self@.client,
    {
        self.client
    }

    /// The funds that the client may withdraw.
    pub fn available(&self) -> (available: i64)
        ensures
            available == self@.available,
    {
        self.available
    }

    /// The funds that are under dispute.
    pub fn held(&self) -> (held: i64)
        ensures
            held == self@.held,
    {
        self.held
    }

    /// The whole balance: available plus held.
    pub fn total(&self) -> (total: i64)
        ensures
            total == self@.total(),
    {
        self.available.wrapping_add(self.held)
    }

    /// Whether the account still accepts operations.
    pub fn status(&self) -> (status: ClientStatus)
        ensures
            status == self@.status,
    {
        self.status
    }

    /// The retained deposit `tx_id`, if there is one.
    pub fn transaction(&self, tx_id: u32) -> (transaction: Option<Transaction>)
        ensures
            transaction == if self@.knows(tx_id) {
                Some(self@.transactions[tx_id])
            } else {
                None
            },
    {
        match self.transactions.get(&tx_id) {
            Some(transaction) => Some(*transaction),
            None => None,
        }
    }

    /// Applies one operation to the account, as [`ClientView::apply`] describes.
    pub fn apply_operation(&mut self, operation: Operation)
        ensures
            final(self)@ == old(self)@.apply(operation),
    {
        if self.status == ClientStatus::Frozen {
            return ;
        }
        match operation.type_ {
            OperationType::Deposit => {
                self.available = self.available.wrapping_add(operation.amount);
                self.transactions.insert(
                    operation.tx_id,
                    Transaction { operation, status: TransactionStatus::Normal },
                );
            },
            OperationType::Withdrawal => {
                if self.available >= operation.amount {
                    self.available = self.available.wrapping_sub(operation.amount);
                }
            },
            OperationType::Dispute => {
                match self.transactions.entry(operation.tx_id) {
                    Entry::Occupied(mut entry) => {
                        let tx = entry.get_mut();
                        if tx.status != TransactionStatus::Disputed {
                            self.available = self.available.wrapping_sub(tx.operation.amount);
                            self.held = self.held.wrapping_add(tx.operation.amount);
                            tx.status = TransactionStatus::Disputed;
                        }
                    },
                    Entry::Vacant(_) => {},
                }
                assert(self.transactions@ =~= old(self)@.apply(operation).transactions);
            },
            OperationType::Resolve => {
                match self.transactions.entry(operation.tx_id) {
                    Entry::Occupied(mut entry) => {
                        let tx = entry.get_mut();
                        if tx.status == TransactionStatus::Disputed {
                            self.available = self.available.wrapping_add(tx.operation.amount);
                            self.held = self.held.wrapping_sub(tx.operation.amount);
                            tx.status = TransactionStatus::Normal;
                        }
                    },
                    Entry::Vacant(_) => {},
                }
                assert(self.transactions@ =~= old(self)@.apply(operation).transactions);
            },
            OperationType::Chargeback => {
                match self.transactions.entry(operation.tx_id) {
                    Entry::Occupied(mut entry) => {
                        let tx = entry.get_mut();
                        if tx.status == TransactionStatus::Disputed {
                            self.held = self.held.wrapping_sub(tx.operation.amount);
                            self.status = ClientStatus::Frozen;
                            tx.status = TransactionStatus::Normal;
                        }
                    },
                    Entry::Vacant(_) => {},
                }
                assert(self.transactions@ =~= old(self)@.apply(operation).transactions);
            },
        }
    }
}

/// The row that stands for one account in the report.
#[derive(Debug, Clone, Copy, PartialEq, Eq)]
pub struct ClientStateCsv {
    pub client: u16,
    pub available: i64,
    pub held: i64,
    pub total: i64,
    pub locked: bool,
}

impl ClientStateCsv {
    /// The row of the account `state`: its balances as they are, their sum as
    /// the total, and whether the account is frozen.
    pub open spec fn of(state: ClientView) -> ClientStateCsv {
        ClientStateCsv {
            client: state.client,
            available: state.available,
            held: state.held,
            total: state.total(),
            locked: state.locked(),
        }
    }
}

impl From<ClientState> for ClientStateCsv {
    fn from(state: ClientState) -> (row: ClientStateCsv) {
        ClientStateCsv {
            client: state.client,
            locked: state.status == ClientStatus::Frozen,
            available: state.available,
            held: state.held,
            total: state.available.wrapping_add(state.held),
        }
    }
}

impl vstd::std_specs::convert::FromSpecImpl<ClientState> for ClientStateCsv {
    open spec fn obeys_from_spec() -> bool {
        true
    }

    open spec fn from_spec(state: ClientState) -> ClientStateCsv {
        ClientStateCsv::of(state@)
    }
}

} // verus!
