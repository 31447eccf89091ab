//! Turning the text of a batch into operations.
//!
//! The `csv` crate splits the text into rows and fields. Its reader, its
//! records and its errors are opaque here: what a reader has still to hand out
//! and what a record holds are named by [`pending_rows`] and
//! [`record_fields`], and the contracts below say how the calls into the crate
//! move them. Every row is then decoded by [`decode_record`]; a row that cannot
//! be read or decoded is skipped, and [`parse_rows`] says which rows those were.
use vstd::prelude::*;

use crate::operation::Operation;
use crate::record::{decode_fields, decoded, DecodeError};

verus! {

/// A record of the `csv` crate: the fields of one row, as raw bytes.
#[verifier::external_type_specification]
#[verifier::external_body]
pub struct ExByteRecord(csv::ByteRecord);

/// A reader of the `csv` crate over some source of bytes.
#[verifier::external_type_specification]
#[verifier::external_body]
#[verifier::reject_recursive_types(R)]
pub struct ExReader<R>(csv::Reader<R>);

/// An error of the `csv` crate.
#[verifier::external_type_specification]
#[verifier::external_body]
pub struct ExError(csv::Error);

/// The fields that a record of the `csv` crate holds, in order.
pub uninterp spec fn record_fields(record: csv::ByteRecord) -> Seq<Seq<u8>>;

/// What a reader of the `csv` crate over a byte slice has still to hand out,
/// one entry for each call of `read_byte_record` that finds the reader short of
/// its end: the fields of a row, or `None` where the call fails.
pub uninterp spec fn pending_rows(reader: csv::Reader<&[u8]>) -> Seq<Option<Seq<Seq<u8>>>>;

/// The rows into which the `csv` crate splits the text `data`, read without a
/// header row and with rows of any number of fields: what a fresh reader over
/// `data` has to hand out.
pub uninterp spec fn csv_rows(data: Seq<u8>) -> Seq<Option<Seq<Seq<u8>>>>;

/// `csv::ByteRecord::new` makes an empty record, to be filled by a reader.
pub assume_specification[ csv::ByteRecord::new ]() -> (record: csv::ByteRecord)
;

/// `csv::ByteRecord::len` returns the number of fields of the record.
pub assume_specification[ csv::ByteRecord::len ](record: &csv::ByteRecord) -> (len: usize)
    ensures
        len == record_fields(*record).len(),
;

/// `csv::ByteRecord::get` returns the field at index `i`, or `None` when the
/// record has no such field.
pub assume_specification[ csv::ByteRecord::get ](record: &csv::ByteRecord, i: usize) -> (field:
    Option<&[u8]>)
    ensures
        match field {
            Some(bytes) => i < record_fields(*record).len() && bytes@ == record_fields(
                *record,
            )[i as int],
            None => i >= record_fields(*record).len(),
        },
;

/// Builds a reader over `data` with `csv::ReaderBuilder`: `new`, then
/// `has_headers(false)`, `flexible(true)` and `buffer_capacity(512)`, then
/// `from_reader`. The first row is handed out like any other, and rows may
/// differ in their number of fields. What the reader will hand out depends on
/// `data` alone.
#[verifier::external_body]
fn open_reader(data: &[u8]) -> (reader: csv::Reader<&[u8]>)
    ensures
        pending_rows(reader) == csv_rows(data@),
{
    csv::ReaderBuilder::new().has_headers(false).flexible(true).buffer_capacity(512).from_reader(
        data,
    )
}

/// `csv::Reader::read_byte_record` reads the next row into `record`. `Ok(true)`
/// means that `record` now holds the fields of that row, `Ok(false)` that the
/// reader is at its end and stays there, an error that the row was given up.
#[verifier::external_body]
fn read_row(reader: &mut csv::Reader<&[u8]>, record: &mut csv::ByteRecord) -> (outcome: Result<
    bool,
    csv::Error,
>)
    ensures
        match outcome {
            Ok(true) => {
                &&& pending_rows(*old(reader)).len() > 0
                &&& pending_rows(*old(reader))[0] == Some(record_fields(*final(record)))
                &&& pending_rows(*final(reader)) == pending_rows(*old(reader)).drop_first()
            },
            Ok(false) => {
                &&& pending_rows(*old(reader)).len() == 0
                &&& pending_rows(*final(reader)).len() == 0
            },
            Err(_) => {
                &&& pending_rows(*old(reader)).len() > 0
                &&& pending_rows(*old(reader))[0] is None
                &&& pending_rows(*final(reader)) == pending_rows(*old(reader)).drop_first()
            },
        },
{
    reader.read_byte_record(record)
}

/// The operations that `rows` denote, in order. A row that could not be read,
/// or that denotes no operation, is left out.
pub open spec fn decoded_rows(rows: Seq<Option<Seq<Seq<u8>>>>) -> Seq<Operation>
    decreases rows.len(),
{
    if rows.len() == 0 {
        Seq::empty()
    } else {
        let before = decoded_rows(rows.drop_last());
        match rows.last() {
            Some(fields) => match decoded(fields) {
                Ok(operation) => before.push(operation),
                Err(_) => before,
            },
            None => before,
        }
    }
}

/// The first `count` rows of `rows`, or all of them if there are fewer.
pub open spec fn first_rows(rows: Seq<Option<Seq<Seq<u8>>>>, count: nat) -> Seq<
    Option<Seq<Seq<u8>>>,
> {
    if count <= rows.len() {
        rows.take(count as int)
    } else {
        rows
    }
}

/// The largest batch for which room is set aside up front. A larger batch is
/// decoded all the same, and its operations find their room as they come.
pub const RESERVED_ROWS_LIMIT: usize = 0x0400_0000;

/// Decodes the row that `record` holds, as [`decoded`] describes.
pub fn decode_record(record: &csv::ByteRecord) -> (operation: Result<Operation, DecodeError>)
    ensures
        operation == decoded(record_fields(*record)),
{
    let arity: usize = record.len();
    if arity != 3 && arity != 4 {
        return Err(DecodeError::Arity);
    }
    match (record.get(0), record.get(1), record.get(2)) {
        (Some(type_), Some(client), Some(tx_id)) => decode_fields(
            type_,
            client,
            tx_id,
            record.get(3),
        ),
        _ => Err(DecodeError::Arity),
    }
}

/// Why a row of a batch gave no operation.
#[derive(Debug, Clone, Copy, PartialEq, Eq, Structural)]
pub enum RowError {
    /// The row could not be read from the text.
    Unreadable,
    /// The row was read, but denotes no operation.
    Undecodable(DecodeError),
}

/// A row of a batch that was skipped: its place among the rows of the batch,
/// counted from `0`, and the reason.
#[derive(Debug, Clone, Copy, PartialEq, Eq, Structural)]
pub struct Rejected {
    pub row: usize,
    pub reason: RowError,
}

/// Why `row` gives no operation, if it gives none.
pub open spec fn row_error(row: Option<Seq<Seq<u8>>>) -> Option<RowError> {
    match row {
        None => Some(RowError::Unreadable),
        Some(fields) => match decoded(fields) {
            Ok(_) => None,
            Err(reason) => Some(RowError::Undecodable(reason)),
        },
    }
}

/// The rows among `rows` that give no operation, in order, each with its place
/// and the reason.
pub open spec fn rejected_rows(rows: Seq<Option<Seq<Seq<u8>>>>) -> Seq<Rejected>
    decreases rows.len(),
{
    if rows.len() == 0 {
        Seq::empty()
    } else {
        let before = rejected_rows(rows.drop_last());
        match row_error(rows.last()) {
            Some(reason) => before.push(Rejected { row: (rows.len() - 1) as usize, reason }),
            None => before,
        }
    }
}

/// Every row gives an operation or is rejected: the two add up to the rows.
pub proof fn lemma_rows_are_decoded_or_rejected(rows: Seq<Option<Seq<Seq<u8>>>>)
    ensures
        decoded_rows(rows).len() + rejected_rows(rows).len() == rows.len(),
    decreases rows.len(),
{
    if rows.len() > 0 {
        lemma_rows_are_decoded_or_rejected(rows.drop_last());
    }
}

/// Decodes the operations of a batch: those of the first `chunk_size` rows of
/// `data`, in order. Rows that cannot be read or decoded are skipped, and are
/// appended to `rejected`.
pub fn parse_rows(data: &[u8], chunk_size: usize, rejected: &mut Vec<Rejected>) -> (operations: Vec<
    Operation,
>)
    ensures
        operations@ == decoded_rows(first_rows(csv_rows(data@), chunk_size as nat)),
        final(rejected)@ == old(rejected)@ + rejected_rows(
            first_rows(csv_rows(data@), chunk_size as nat),
        ),
{
    let mut operations: Vec<Operation> = if chunk_size <= RESERVED_ROWS_LIMIT {
        Vec::with_capacity(chunk_size)
    } else {
        Vec::new()
    };
    let mut record = csv::ByteRecord::new();
    let mut reader = open_reader(data);
    let ghost rows = csv_rows(data@);
    let mut seen: usize = 0;
    let mut at_end: bool = false;
    assert(rows.take(0) =~= Seq::empty());
    assert(rows.skip(0) =~= rows);
    assert(old(rejected)@ + Seq::<Rejected>::empty() =~= old(rejected)@);
    while seen < chunk_size && !at_end
        invariant
            rows == csv_rows(data@),
            seen <= chunk_size,
            seen <= rows.len(),
            pending_rows(reader) == rows.skip(seen as int),
            operations@ == decoded_rows(rows.take(seen as int)),
            rejected@ == old(rejected)@ + rejected_rows(rows.take(seen as int)),
            at_end ==> seen == rows.len(),
        decreases chunk_size - seen + if at_end {
                0int
            } else {
                1int
            },
    {
        let outcome = read_row(&mut reader, &mut record);
        let ghost skipped = rejected_rows(rows.take(seen as int));
        proof {
            if seen < rows.len() {
                assert(rows.take(seen + 1).drop_last() =~= rows.take(seen as int));
                assert(rows.skip(seen as int).drop_first() =~= rows.skip(seen + 1));
            }
        }
        match outcome {
            Ok(true) => {
                match decode_record(&record) {
                    Ok(operation) => {
                        operations.push(operation);
                    },
                    Err(reason) => {
                        rejected.push(Rejected { row: seen, reason: RowError::Undecodable(reason) });
                        assert(rejected@ =~= old(rejected)@ + skipped.push(
                            Rejected { row: seen, reason: RowError::Undecodable(reason) },
                        ));
                    },
                }
                seen = seen + 1;
            },
            Ok(false) => {
                at_end = true;
            },
            Err(_) => {
                rejected.push(Rejected { row: seen, reason: RowError::Unreadable });
                assert(rejected@ =~= old(rejected)@ + skipped.push(
                    Rejected { row: seen, reason: RowError::Unreadable },
                ));
                seen = seen + 1;
            },
        }
    }
    proof {
        if at_end {
            assert(rows.take(seen as int) =~= rows);
        }
    }
    operations
}

/// Decodes the operations of a batch: those of the first `chunk_size` rows of
/// `data`, in order. Rows that cannot be read or decoded are skipped.
pub fn parse_csv(data: &[u8], chunk_size: usize) -> (operations: Vec<Operation>)
    ensures
        operations@ == decoded_rows(first_rows(csv_rows(data@), chunk_size as nat)),
{
    let mut rejected: Vec<Rejected> = Vec::new();
    parse_rows(data, chunk_size, &mut rejected)
}

} // verus!
