//! The rows of the final report.
//!
//! The report has one row for every client that was met, under the heading
//! `client,available,held,total,locked`. Amounts are written as
//! [`amount_text`] describes, and `locked` as `true` or `false`.
use vstd::prelude::*;
use vstd::string::*;

use crate::client_state::{ClientState, ClientStateCsv};
use crate::fixed_point::{amount_text, decimal, push_decimal, serialize_fractional};

verus! {

/// The text of a truth value.
pub open spec fn bool_text(value: bool) -> Seq<char> {
    if value {
        "true"@
    } else {
        "false"@
    }
}

/// The names of the columns of the report.
pub open spec fn header_fields() -> Seq<Seq<char>> {
    seq!["client"@, "available"@, "held"@, "total"@, "locked"@]
}

/// The fields of the row `row`, column by column.
pub open spec fn row_fields(row: ClientStateCsv) -> Seq<Seq<char>> {
    seq![
        decimal(row.client as nat),
        amount_text(row.available as int),
        amount_text(row.held as int),
        amount_text(row.total as int),
        bool_text(row.locked),
    ]
}

/// The heading of the report.
pub fn header() -> (fields: Vec<String>)
    ensures
        fields.deep_view() == header_fields(),
{
    let mut fields: Vec<String> = Vec::with_capacity(5);
    fields.push(String::from_str("client"));
    fields.push(String::from_str("available"));
    fields.push(String::from_str("held"));
    fields.push(String::from_str("total"));
    fields.push(String::from_str("locked"));
    assert(fields.deep_view() =~= header_fields());
    fields
}

impl ClientStateCsv {
    /// The fields of this row as they stand in the report.
    pub fn fields(&self) -> (fields: Vec<String>)
        ensures
            fields.deep_view() == row_fields(*self),
    {
        let mut client = String::new();
        push_decimal(&mut client, self.client as u64);
        let locked = if self.locked {
            String::from_str("true")
        } else {
            String::from_str("false")
        };
        assert(client@ =~= decimal(self.client as nat));
        let mut fields: Vec<String> = Vec::with_capacity(5);
        fields.push(client);
        fields.push(serialize_fractional(self.available));
        fields.push(serialize_fractional(self.held));
        fields.push(serialize_fractional(self.total));
        fields.push(locked);
        assert(fields.deep_view() =~= row_fields(*self));
        fields
    }
}

/// The fields of the report row of the account `state`.
pub fn report_row(state: ClientState) -> (fields: Vec<String>)
    ensures
        fields.deep_view() == row_fields(ClientStateCsv::of(state@)),
{
    let row = ClientStateCsv::from(state);
    row.fields()
}

} // verus!
