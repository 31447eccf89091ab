//! Decoding the rows of the input history.
//!
//! A row has the fields `type, client, tx, amount`, in this order. White space
//! around a field does not count. The amount may be left out, or left empty,
//! on a dispute, a resolve or a chargeback, and counts as `0` there.
//!
//! Splitting the text into rows and fields is the work of the `csv` crate;
//! everything from the fields on is decided here.
use vstd::prelude::*;
use vstd::slice::slice_subrange;
use vstd::string::*;

use crate::fixed_point::{
    amount_text, amount_value, decimal, deserialize_amount, parse_unsigned, push_decimal,
    serialize_fractional, unsigned_value, AmountError,
};
use crate::operation::{Operation, OperationType};

verus! {

/// Why a row is no operation. Where several reasons apply, the first in the
/// order of the fields is given.
#[derive(Debug, Clone, Copy, PartialEq, Eq, Structural)]
pub enum DecodeError {
    /// The row has neither three nor four fields.
    Arity,
    /// The first field names no kind of operation.
    Type,
    /// The second field is no unsigned 16-bit decimal number.
    Client,
    /// The third field is no unsigned 32-bit decimal number.
    Transaction,
    /// A deposit or a withdrawal without an amount.
    MissingAmount,
    /// The fourth field holds something that is no amount.
    Amount(AmountError),
}

/// Whether `b` is ASCII white space: a space, a tab, a line feed, a form feed
/// or a carriage return.
pub open spec fn is_whitespace(b: u8) -> bool {
    b == 0x20 || b == 0x09 || b == 0x0A || b == 0x0C || b == 0x0D
}

/// The number of white-space bytes at the front of `s`.
pub open spec fn leading_whitespace(s: Seq<u8>) -> nat
    decreases s.len(),
{
    if s.len() > 0 && is_whitespace(s[0]) {
        1 + leading_whitespace(s.drop_first())
    } else {
        0
    }
}

/// The number of white-space bytes at the end of `s`.
pub open spec fn trailing_whitespace(s: Seq<u8>) -> nat
    decreases s.len(),
{
    if s.len() > 0 && is_whitespace(s.last()) {
        1 + trailing_whitespace(s.drop_last())
    } else {
        0
    }
}

/// `s` without the white space at its end.
pub open spec fn trimmed_end(s: Seq<u8>) -> Seq<u8> {
    s.take(s.len() - trailing_whitespace(s))
}

/// `s` without the white space at its front and at its end.
pub open spec fn trimmed(s: Seq<u8>) -> Seq<u8> {
    trimmed_end(s).skip(leading_whitespace(trimmed_end(s)) as int)
}

/// The bytes of an ASCII text.
pub open spec fn ascii(text: Seq<char>) -> Seq<u8> {
    Seq::new(text.len(), |i: int| text[i] as u8)
}

/// The kind of operation that `word` names.
pub open spec fn operation_type(word: Seq<u8>) -> Option<OperationType> {
    if word == ascii("deposit"@) {
        Some(OperationType::Deposit)
    } else if word == ascii("withdrawal"@) {
        Some(OperationType::Withdrawal)
    } else if word == ascii("dispute"@) {
        Some(OperationType::Dispute)
    } else if word == ascii("resolve"@) {
        Some(OperationType::Resolve)
    } else if word == ascii("chargeback"@) {
        Some(OperationType::Chargeback)
    } else {
        None
    }
}

/// The amount of an operation of kind `type_` whose row holds `amount` as its
/// fourth field, if it has one. A missing or empty amount counts as `0` on a
/// dispute, a resolve or a chargeback, and is an error on the other kinds.
pub open spec fn decoded_amount(type_: OperationType, amount: Option<Seq<u8>>) -> Result<
    i64,
    DecodeError,
> {
    if amount is None || trimmed(amount->0).len() == 0 {
        match type_ {
            OperationType::Deposit | OperationType::Withdrawal => Err(DecodeError::MissingAmount),
            _ => Ok(0),
        }
    } else {
        match amount_value(trimmed(amount->0)) {
            Ok(value) => Ok(value),
            Err(reason) => Err(DecodeError::Amount(reason)),
        }
    }
}

/// The operation that the four fields denote, each without the white space
/// around it.
pub open spec fn decoded_fields(
    type_: Seq<u8>,
    client: Seq<u8>,
    tx_id: Seq<u8>,
    amount: Option<Seq<u8>>,
) -> Result<Operation, DecodeError> {
    match operation_type(trimmed(type_)) {
        None => Err(DecodeError::Type),
        Some(kind) => match unsigned_value(trimmed(client), u16::MAX as nat) {
            None => Err(DecodeError::Client),
            Some(client) => match unsigned_value(trimmed(tx_id), u32::MAX as nat) {
                None => Err(DecodeError::Transaction),
                Some(tx_id) => match decoded_amount(kind, amount) {
                    Err(reason) => Err(reason),
                    Ok(amount) => Ok(
                        Operation {
                            type_: kind,
                            client: client as u16,
                            tx_id: tx_id as u32,
                            amount,
                        },
                    ),
                },
            },
        },
    }
}

/// The operation that a row of `fields` denotes.
pub open spec fn decoded(fields: Seq<Seq<u8>>) -> Result<Operation, DecodeError> {
    if fields.len() == 4 {
        decoded_fields(fields[0], fields[1], fields[2], Some(fields[3]))
    } else if fields.len() == 3 {
        decoded_fields(fields[0], fields[1], fields[2], None)
    } else {
        Err(DecodeError::Arity)
    }
}

/// Whether `b` is ASCII white space.
pub fn is_ascii_whitespace(b: u8) -> (space: bool)
    ensures
        space == is_whitespace(b),
{
    b == 0x20 || b == 0x09 || b == 0x0A || b == 0x0C || b == 0x0D
}

/// The part of `bytes` between the white space at its front and at its end.
/// Nothing is copied: the result is a piece of `bytes` itself.
pub fn trim(bytes: &[u8]) -> (inner: &[u8])
    ensures
        inner@ == trimmed(bytes@),
{
    let mut end: usize = bytes.len();
    assert(bytes@.take(end as int) =~= bytes@);
    while end > 0 && is_ascii_whitespace(bytes[end - 1])
        invariant
            end <= bytes@.len(),
            trailing_whitespace(bytes@) == bytes@.len() - end + trailing_whitespace(
                bytes@.take(end as int),
            ),
        decreases end,
    {
        assert(bytes@.take(end as int).drop_last() =~= bytes@.take(end - 1));
        end = end - 1;
    }
    let ghost kept = bytes@.take(end as int);
    assert(kept == trimmed_end(bytes@));
    let mut start: usize = 0;
    assert(kept.skip(0) =~= kept);
    while start < end && is_ascii_whitespace(bytes[start])
        invariant
            start <= end <= bytes@.len(),
            kept == bytes@.take(end as int),
            leading_whitespace(kept) == start + leading_whitespace(kept.skip(start as int)),
        decreases end - start,
    {
        assert(kept.skip(start as int).drop_first() =~= kept.skip(start + 1));
        start = start + 1;
    }
    assert(bytes@.subrange(start as int, end as int) =~= kept.skip(start as int));
    slice_subrange(bytes, start, end)
}

/// Whether `field` holds exactly the bytes of the ASCII text `word`.
fn is_word(field: &[u8], word: &str) -> (same: bool)
    requires
        is_ascii(word),
    ensures
        same == (field@ == ascii(word@)),
{
    broadcast use is_ascii_spec_bytes;

    let bytes = word.as_bytes();
    assert(bytes@ =~= ascii(word@));
    if field.len() != bytes.len() {
        return false;
    }
    let mut i: usize = 0;
    while i < field.len()
        invariant
            i <= field@.len(),
            field@.len() == bytes@.len(),
            bytes@ == ascii(word@),
            forall|j: int| 0 <= j < i ==> field@[j] == bytes@[j],
        decreases field@.len() - i,
    {
        if field[i] != bytes[i] {
            return false;
        }
        i = i + 1;
    }
    assert(field@ =~= bytes@);
    true
}

/// Decodes the name of a kind of operation.
pub fn decode_type(word: &[u8]) -> (kind: Option<OperationType>)
    ensures
        kind == operation_type(word@),
{
    proof {
        reveal_strlit("deposit");
        reveal_strlit("withdrawal");
        reveal_strlit("dispute");
        reveal_strlit("resolve");
        reveal_strlit("chargeback");
    }
    if is_word(word, "deposit") {
        Some(OperationType::Deposit)
    } else if is_word(word, "withdrawal") {
        Some(OperationType::Withdrawal)
    } else if is_word(word, "dispute") {
        Some(OperationType::Dispute)
    } else if is_word(word, "resolve") {
        Some(OperationType::Resolve)
    } else if is_word(word, "chargeback") {
        Some(OperationType::Chargeback)
    } else {
        None
    }
}

/// The view of a field that may be missing.
pub open spec fn field_view(field: Option<&[u8]>) -> Option<Seq<u8>> {
    match field {
        Some(bytes) => Some(bytes@),
        None => None,
    }
}

/// Decodes the fields of one row, as [`decoded_fields`] describes.
pub fn decode_fields(type_: &[u8], client: &[u8], tx_id: &[u8], amount: Option<&[u8]>) -> (operation:
    Result<Operation, DecodeError>)
    ensures
        operation == decoded_fields(type_@, client@, tx_id@, field_view(amount)),
{
    let kind = match decode_type(trim(type_)) {
        Some(kind) => kind,
        None => {
            return Err(DecodeError::Type);
        },
    };
    let client: u16 = match parse_unsigned(trim(client), u16::MAX as u32) {
        Some(client) => client as u16,
        None => {
            return Err(DecodeError::Client);
        },
    };
    let tx_id: u32 = match parse_unsigned(trim(tx_id), u32::MAX) {
        Some(tx_id) => tx_id,
        None => {
            return Err(DecodeError::Transaction);
        },
    };
    let text: &[u8] = match amount {
        Some(bytes) => trim(bytes),
        None => slice_subrange(type_, 0, 0),
    };
    let amount: i64 = if text.len() == 0 {
        match kind {
            OperationType::Deposit | OperationType::Withdrawal => {
                return Err(DecodeError::MissingAmount);
            },
            _ => 0,
        }
    } else {
        match deserialize_amount(text) {
            Ok(value) => value,
            Err(reason) => {
                return Err(DecodeError::Amount(reason));
            },
        }
    };
    Ok(Operation { type_: kind, client, tx_id, amount })
}

/// The name of a kind of operation, as it stands in a row.
pub open spec fn kind_name(kind: OperationType) -> Seq<char> {
    match kind {
        OperationType::Deposit => "deposit"@,
        OperationType::Withdrawal => "withdrawal"@,
        OperationType::Dispute => "dispute"@,
        OperationType::Resolve => "resolve"@,
        OperationType::Chargeback => "chargeback"@,
    }
}

/// The fields of the row that stands for `operation`: the name of its kind,
/// its client, its transaction id, and its amount as [`amount_text`] writes it.
pub open spec fn encoded_fields(operation: Operation) -> Seq<Seq<char>> {
    seq![
        kind_name(operation.type_),
        decimal(operation.client as nat),
        decimal(operation.tx_id as nat),
        amount_text(operation.amount as int),
    ]
}

/// The name of a kind of operation is the word that [`operation_type`] reads
/// as that kind.
pub proof fn lemma_kind_name_is_read(kind: OperationType)
    ensures
        operation_type(ascii(kind_name(kind))) == Some(kind),
{
    reveal_strlit("deposit");
    reveal_strlit("withdrawal");
    reveal_strlit("dispute");
    reveal_strlit("resolve");
    reveal_strlit("chargeback");
    assert(ascii("deposit"@).len() == 7);
    assert(ascii("withdrawal"@).len() == 10 && ascii("withdrawal"@)[0] == 0x77);
    assert(ascii("dispute"@).len() == 7 && ascii("dispute"@)[1] == 0x69);
    assert(ascii("deposit"@)[1] == 0x65);
    assert(ascii("resolve"@).len() == 7 && ascii("resolve"@)[0] == 0x72);
    assert(ascii("deposit"@)[0] == 0x64 && ascii("dispute"@)[0] == 0x64);
    assert(ascii("chargeback"@).len() == 10 && ascii("chargeback"@)[0] == 0x63);
}

impl OperationType {
    /// The name of this kind of operation, as it stands in a row.
    pub fn name(&self) -> (name: &'static str)
        ensures
            name@ == kind_name(*self),
    {
        match self {
            OperationType::Deposit => "deposit",
            OperationType::Withdrawal => "withdrawal",
            OperationType::Dispute => "dispute",
            OperationType::Resolve => "resolve",
            OperationType::Chargeback => "chargeback",
        }
    }
}

/// Writes `operation` as the fields of a row, as [`encoded_fields`] describes.
pub fn encode_fields(operation: &Operation) -> (fields: Vec<String>)
    ensures
        fields.deep_view() == encoded_fields(*operation),
{
    let mut client = String::new();
    push_decimal(&mut client, operation.client as u64);
    let mut tx_id = String::new();
    push_decimal(&mut tx_id, operation.tx_id as u64);
    assert(client@ =~= decimal(operation.client as nat));
    assert(tx_id@ =~= decimal(operation.tx_id as nat));
    let mut fields: Vec<String> = Vec::with_capacity(4);
    fields.push(String::from_str(operation.type_.name()));
    fields.push(client);
    fields.push(tx_id);
    fields.push(serialize_fractional(operation.amount));
    assert(fields.deep_view() =~= encoded_fields(*operation));
    fields
}

} // verus!
