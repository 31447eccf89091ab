//! A batch payment-ledger engine.
//!
//! The crate turns an ordered history of account operations (deposits,
//! withdrawals, disputes, resolves and chargebacks) into the final balance of
//! every client. Each stage is an ordinary function over plain values, with a
//! contract that states its result:
//!
//! * [`fixed_point`]: amounts as integers scaled by 10,000, and their text form;
//! * [`lines`]: cutting a byte stream into batches of whole lines;
//! * [`operation`], [`record`] and [`parse`]: typed operations, the decoding of
//!   rows, and the decoding of a whole batch;
//! * [`client_state`]: the per-client ledger and its state machine;
//! * [`dispatch`]: sharding a batch by client while keeping each client's order;
//! * [`report`]: the rows of the final report.
pub mod client_state;
pub mod dispatch;
pub mod fixed_point;
pub mod lines;
pub mod operation;
pub mod parse;
pub mod record;
pub mod report;
