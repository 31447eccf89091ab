//! Sharding a batch of operations by client.
//!
//! The operations of one client must reach its ledger in the order in which
//! they stand in the input, whatever the batches are into which the input is
//! cut. Clients do not depend on each other. So a batch is split into one run
//! of operations per client, and each client's ledger is carried from batch to
//! batch: the task of a client for a batch takes the ledger that the client's
//! task for the batch before has produced, or a fresh one, and applies the run.
use std::collections::hash_map::Entry;
use std::collections::HashMap;

use vstd::prelude::*;

use crate::client_state::{ClientState, ClientView};
use crate::operation::Operation;

verus! {

broadcast use vstd::std_specs::hash::group_hash_axioms;

/// The room that is set aside for the operations of a client when the first of
/// them is met in a batch.
pub const EXPECTED_OPERATIONS_PER_CLIENT: usize = 102_400;

/// The operations of `client` among `operations`, in their order.
pub open spec fn operations_of(operations: Seq<Operation>, client: u16) -> Seq<Operation>
    decreases operations.len(),
{
    if operations.len() == 0 {
        Seq::empty()
    } else {
        let before = operations_of(operations.drop_last(), client);
        if operations.last().client == client {
            before.push(operations.last())
        } else {
            before
        }
    }
}

/// The operations of all `batches`, in order: the input as one run.
pub open spec fn joined(batches: Seq<Seq<Operation>>) -> Seq<Operation>
    decreases batches.len(),
{
    if batches.len() == 0 {
        Seq::empty()
    } else {
        joined(batches.drop_last()) + batches.last()
    }
}

/// The ledger of `client` after its tasks for each of `batches` in turn, begun
/// with the ledger `start`: each task replays the client's operations of its
/// batch on the ledger that the task before has handed on.
pub open spec fn after_batches(start: ClientView, batches: Seq<Seq<Operation>>, client: u16) -> ClientView
    decreases batches.len(),
{
    if batches.len() == 0 {
        start
    } else {
        after_batches(start, batches.drop_last(), client).replay(
            operations_of(batches.last(), client),
        )
    }
}

/// The operations of a client in two runs, one after the other, are its
/// operations in the first run followed by its operations in the second.
pub proof fn lemma_operations_of_concat(first: Seq<Operation>, second: Seq<Operation>, client: u16)
    ensures
        operations_of(first + second, client) == operations_of(first, client) + operations_of(
            second,
            client,
        ),
    decreases second.len(),
{
    if second.len() == 0 {
        assert(first + second =~= first);
        assert(operations_of(first, client) + operations_of(second, client) =~= operations_of(
            first,
            client,
        ));
    } else {
        lemma_operations_of_concat(first, second.drop_last(), client);
        assert((first + second).drop_last() =~= first + second.drop_last());
        assert((first + second).last() == second.last());
        let before = operations_of(first, client) + operations_of(second.drop_last(), client);
        if second.last().client == client {
            assert(before.push(second.last()) =~= operations_of(first, client) + operations_of(
                second,
                client,
            ));
        }
    }
}

/// The operations of a client are operations of that client, and there are no
/// more of them than operations at all.
pub proof fn lemma_operations_of_client(operations: Seq<Operation>, client: u16)
    ensures
        operations_of(operations, client).len() <= operations.len(),
        forall|i: int|
            0 <= i < operations_of(operations, client).len() ==> (#[trigger] operations_of(
                operations,
                client,
            )[i]).client == client,
    decreases operations.len(),
{
    if operations.len() > 0 {
        lemma_operations_of_client(operations.drop_last(), client);
    }
}

/// However the input is cut into batches, the ledger of a client ends as if
/// the client's operations had been replayed in one run, in the order of the
/// input.
pub proof fn lemma_batches_are_one_run(start: ClientView, batches: Seq<Seq<Operation>>, client: u16)
    ensures
        after_batches(start, batches, client) == start.replay(
            operations_of(joined(batches), client),
        ),
    decreases batches.len(),
{
    if batches.len() > 0 {
        let before = batches.drop_last();
        lemma_batches_are_one_run(start, before, client);
        lemma_operations_of_concat(joined(before), batches.last(), client);
        crate::client_state::lemma_replay_concat(
            start,
            operations_of(joined(before), client),
            operations_of(batches.last(), client),
        );
    }
}

/// Two ways of cutting the same input into batches leave every client with the
/// same ledger.
pub proof fn lemma_batching_is_irrelevant(
    start: ClientView,
    first: Seq<Seq<Operation>>,
    second: Seq<Seq<Operation>>,
    client: u16,
)
    requires
        joined(first) == joined(second),
    ensures
        after_batches(start, first, client) == after_batches(start, second, client),
{
    lemma_batches_are_one_run(start, first, client);
    lemma_batches_are_one_run(start, second, client);
}

/// The ledgers of all clients after one more batch. Every client of the batch
/// has its operations replayed, in their order, on the ledger that it had, or
/// on a fresh one; the ledgers of the other clients stay as they are.
pub open spec fn dispatched(ledgers: Map<u16, ClientView>, batch: Seq<Operation>) -> Map<
    u16,
    ClientView,
> {
    Map::new(
        |client: u16| ledgers.contains_key(client) || operations_of(batch, client).len() > 0,
        |client: u16|
            if operations_of(batch, client).len() > 0 {
                let before = if ledgers.contains_key(client) {
                    ledgers[client]
                } else {
                    ClientView::fresh(client)
                };
                before.replay(operations_of(batch, client))
            } else {
                ledgers[client]
            },
    )
}

/// The ledgers of all clients after the batches `batches`, one after the other,
/// begun with no ledger at all.
pub open spec fn dispatched_all(batches: Seq<Seq<Operation>>) -> Map<u16, ClientView>
    decreases batches.len(),
{
    if batches.len() == 0 {
        Map::empty()
    } else {
        dispatched(dispatched_all(batches.drop_last()), batches.last())
    }
}

/// The ledgers that the history `operations` leaves: one for every client that
/// occurs in it, with that client's operations replayed in their order on a
/// fresh ledger.
pub open spec fn final_ledgers(operations: Seq<Operation>) -> Map<u16, ClientView> {
    Map::new(
        |client: u16| operations_of(operations, client).len() > 0,
        |client: u16| ClientView::fresh(client).replay(operations_of(operations, client)),
    )
}

/// The report is a matter of the input alone: however the history is cut into
/// batches, the same clients end with the same ledgers, those that the history
/// as one run leaves.
pub proof fn lemma_dispatch_is_deterministic(batches: Seq<Seq<Operation>>)
    ensures
        dispatched_all(batches) == final_ledgers(joined(batches)),
    decreases batches.len(),
{
    if batches.len() == 0 {
        assert(dispatched_all(batches) =~= final_ledgers(joined(batches)));
    } else {
        let before = batches.drop_last();
        let batch = batches.last();
        lemma_dispatch_is_deterministic(before);
        assert forall|client: u16|
            operations_of(joined(batches), client) == operations_of(joined(before), client)
                + operations_of(batch, client) && ClientView::fresh(client).replay(
                operations_of(joined(batches), client),
            ) == ClientView::fresh(client).replay(operations_of(joined(before), client)).replay(
                operations_of(batch, client),
            ) by {
            lemma_operations_of_concat(joined(before), batch, client);
            crate::client_state::lemma_replay_concat(
                ClientView::fresh(client),
                operations_of(joined(before), client),
                operations_of(batch, client),
            );
        }
        assert(dispatched_all(batches) =~= final_ledgers(joined(batches)));
    }
}

/// What a client's ledger is before a batch: the ledger that was handed on, or
/// a fresh one where the client has not been met before.
pub open spec fn ledger_before(prior: Option<ClientState>, client: u16) -> ClientView {
    match prior {
        Some(state) => state@,
        None => ClientView::fresh(client),
    }
}

/// Splits a batch into the operations of each client, and empties it.
///
/// The result has one entry for every client that occurs in the batch, and the
/// entry holds that client's operations in the order of the batch.
pub fn split_into_client_operations(operations: &mut Vec<Operation>) -> (client_operations:
    HashMap<u16, Vec<Operation>>)
    ensures
        final(operations)@.len() == 0,
        forall|client: u16| #[trigger]
            client_operations@.contains_key(client) <==> operations_of(
                old(operations)@,
                client,
            ).len() > 0,
        forall|client: u16| #[trigger]
            client_operations@.contains_key(client) ==> client_operations@[client]@
                == operations_of(old(operations)@, client),
{
    let mut client_operations: HashMap<u16, Vec<Operation>> = HashMap::new();
    let mut i: usize = 0;
    assert(operations@.take(0) =~= Seq::<Operation>::empty());
    while i < operations.len()
        invariant
            i <= operations@.len(),
            operations@ == old(operations)@,
            forall|client: u16| #[trigger]
                client_operations@.contains_key(client) <==> operations_of(
                    operations@.take(i as int),
                    client,
                ).len() > 0,
            forall|client: u16| #[trigger]
                client_operations@.contains_key(client) ==> client_operations@[client]@
                    == operations_of(operations@.take(i as int), client),
        decreases operations@.len() - i,
    {
        let operation: Operation = operations[i];
        let ghost before = client_operations@;
        proof {
            assert(operations@.take(i + 1).drop_last() =~= operations@.take(i as int));
            assert(operations@.take(i + 1).last() == operation);
        }
        let ops = match client_operations.entry(operation.client) {
            Entry::Occupied(entry) => entry.into_mut(),
            Entry::Vacant(entry) => entry.insert(Vec::with_capacity(EXPECTED_OPERATIONS_PER_CLIENT)),
        };
        ops.push(operation);
        proof {
            assert forall|client: u16| #[trigger]
                client_operations@.contains_key(client) implies client_operations@[client]@
                == operations_of(operations@.take(i + 1), client) by {
                if client != operation.client {
                    assert(before.contains_key(client));
                }
            }
        }
        i = i + 1;
    }
    assert(operations@.take(i as int) =~= operations@);
    operations.clear();
    client_operations
}

/// The task of `client` for one batch: takes the ledger that the client's
/// earlier batches have produced, or a fresh one, applies the client's
/// operations of this batch in order, and hands the ledger on. The operations
/// are used up.
pub fn run_client_batch(prior: Option<ClientState>, client: u16, operations: &mut Vec<Operation>) -> (state:
    ClientState)
    ensures
        state@ == ledger_before(prior, client).replay(old(operations)@),
        final(operations)@.len() == 0,
{
    let mut state = match prior {
        Some(state) => state,
        None => ClientState::new(client),
    };
    let mut i: usize = 0;
    assert(operations@.take(0) =~= Seq::<Operation>::empty());
    while i < operations.len()
        invariant
            i <= operations@.len(),
            operations@ == old(operations)@,
            state@ == ledger_before(prior, client).replay(operations@.take(i as int)),
        decreases operations@.len() - i,
    {
        proof {
            assert(operations@.take(i + 1).drop_last() =~= operations@.take(i as int));
        }
        state.apply_operation(operations[i]);
        i = i + 1;
    }
    assert(operations@.take(i as int) =~= operations@);
    operations.clear();
    state
}

} // verus!
