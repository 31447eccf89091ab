use std::io::BufWriter;

use payment_engine::fixed_point::AmountError;
use payment_engine::lines::LineReader;
use payment_engine::operation::{Operation, OperationType};
use payment_engine::parse::{decode_record, parse_csv, parse_rows, Rejected, RowError};
use payment_engine::record::{
    decode_fields, decode_type, encode_fields, is_ascii_whitespace, trim, DecodeError,
};

#[test]
fn test_deserialize_operation() {
    let buf = "Operation,ClientId,TxId,Amount
deposit,1,2,1.0
withdrawal,2,3,5.0
dispute,3,4,1.2340
resolve,5,6,1.3333
chargeback,7,8,4294967295.9999";
    // The first row is the heading: it is cut off and never decoded.
    let mut heading = Vec::new();
    let skipped = LineReader::new(1).feed(buf.as_bytes(), &mut heading);
    let operations: Vec<Operation> = parse_csv(&buf.as_bytes()[skipped..], 100);

    assert_eq!(operations.len(), 5);
    assert_eq!(
        operations,
        vec![
            Operation {
                type_: OperationType::Deposit,
                client: 1,
                tx_id: 2,
                amount: 10000
            },
            Operation {
                type_: OperationType::Withdrawal,
                client: 2,
                tx_id: 3,
                amount: 50000
            },
            Operation {
                type_: OperationType::Dispute,
                client: 3,
                tx_id: 4,
                amount: 12340
            },
            Operation {
                type_: OperationType::Resolve,
                client: 5,
                tx_id: 6,
                amount: 13333
            },
            Operation {
                type_: OperationType::Chargeback,
                client: 7,
                tx_id: 8,
                amount: 42949672959999
            },
        ]
    );
}

#[test]
fn test_serialize_operation() {
    let operations = vec![
        Operation {
            type_: OperationType::Deposit,
            client: 1,
            tx_id: 2,
            amount: 10000,
        },
        Operation {
            type_: OperationType::Withdrawal,
            client: 2,
            tx_id: 3,
            amount: 50000,
        },
        Operation {
            type_: OperationType::Dispute,
            client: 3,
            tx_id: 4,
            amount: 12340,
        },
        Operation {
            type_: OperationType::Resolve,
            client: 5,
            tx_id: 6,
            amount: -13333,
        },
        Operation {
            type_: OperationType::Chargeback,
            client: 7,
            tx_id: 8,
            amount: 42949672959999,
        },
    ];

    let mut buf = BufWriter::new(Vec::new());

    {
        let mut writer = csv::WriterBuilder::new().from_writer(&mut buf);
        writer.write_record(["type_", "client", "tx_id", "amount"]).unwrap();
        for operation in operations.iter() {
            writer.write_record(encode_fields(operation)).unwrap();
        }
    }

    let result = "type_,client,tx_id,amount
deposit,1,2,1.0
withdrawal,2,3,5.0
dispute,3,4,1.2340
resolve,5,6,-1.3333
chargeback,7,8,4294967295.9999
";

    let bytes = buf.into_inner().unwrap();
    let string = String::from_utf8(bytes).unwrap();

    assert_eq!(string.as_str(), result);
}

#[test]
fn white_space_around_a_field_is_cut_off() {
    assert_eq!(trim(b"  deposit "), b"deposit");
    assert_eq!(trim(b"\t\r\n\x0c x y \n"), b"x y");
    assert_eq!(trim(b"   "), b"");
    assert_eq!(trim(b""), b"");
    assert_eq!(trim(b"plain"), b"plain");
    // A vertical tab is no white space here.
    assert_eq!(trim(b"\x0bx\x0b"), b"\x0bx\x0b");
}

#[test]
fn white_space_bytes() {
    for b in 0..=255u8 {
        assert_eq!(is_ascii_whitespace(b), b.is_ascii_whitespace());
    }
}

#[test]
fn kinds_of_operations() {
    assert_eq!(decode_type(b"deposit"), Some(OperationType::Deposit));
    assert_eq!(decode_type(b"withdrawal"), Some(OperationType::Withdrawal));
    assert_eq!(decode_type(b"dispute"), Some(OperationType::Dispute));
    assert_eq!(decode_type(b"resolve"), Some(OperationType::Resolve));
    assert_eq!(decode_type(b"chargeback"), Some(OperationType::Chargeback));
    assert_eq!(decode_type(b"Deposit"), None);
    assert_eq!(decode_type(b"deposits"), None);
    assert_eq!(decode_type(b"deposi"), None);
    assert_eq!(decode_type(b""), None);
    assert_eq!(OperationType::Deposit.name(), "deposit");
    assert_eq!(OperationType::Withdrawal.name(), "withdrawal");
    assert_eq!(OperationType::Dispute.name(), "dispute");
    assert_eq!(OperationType::Resolve.name(), "resolve");
    assert_eq!(OperationType::Chargeback.name(), "chargeback");
}

#[test]
fn fields_are_decoded_without_their_white_space() {
    assert_eq!(
        decode_fields(b"  deposit ", b" 0 ", b" 1 ", Some(b" 100.0 ")),
        Ok(Operation::deposit(0, 1, 1_000_000))
    );
    assert_eq!(
        decode_fields(b"deposit", b"0", b"1", Some(b"100.0")),
        Ok(Operation::deposit(0, 1, 1_000_000))
    );
    assert_eq!(
        decode_fields(b"withdrawal", b"65535", b"4294967295", Some(b"0.0001")),
        Ok(Operation::withdrawal(65_535, 4_294_967_295, 1))
    );
}

#[test]
fn amount_may_be_missing_on_disputes_only() {
    assert_eq!(decode_fields(b"dispute", b"1", b"2", None), Ok(Operation::dispute(1, 2)));
    assert_eq!(decode_fields(b"resolve", b"1", b"2", Some(b"")), Ok(Operation::resolve(1, 2)));
    assert_eq!(
        decode_fields(b"chargeback", b"1", b"2", Some(b"  ")),
        Ok(Operation::chargeback(1, 2))
    );
    assert_eq!(decode_fields(b"deposit", b"1", b"2", None), Err(DecodeError::MissingAmount));
    assert_eq!(
        decode_fields(b"withdrawal", b"1", b"2", Some(b" ")),
        Err(DecodeError::MissingAmount)
    );
}

#[test]
fn every_reason_for_rejecting_a_row() {
    assert_eq!(decode_fields(b"refund", b"1", b"2", Some(b"1.0")), Err(DecodeError::Type));
    assert_eq!(decode_fields(b"deposit", b"65536", b"2", Some(b"1.0")), Err(DecodeError::Client));
    assert_eq!(decode_fields(b"deposit", b"-1", b"2", Some(b"1.0")), Err(DecodeError::Client));
    assert_eq!(
        decode_fields(b"deposit", b"1", b"4294967296", Some(b"1.0")),
        Err(DecodeError::Transaction)
    );
    assert_eq!(decode_fields(b"deposit", b"1", b"", Some(b"1.0")), Err(DecodeError::Transaction));
    assert_eq!(
        decode_fields(b"deposit", b"1", b"2", Some(b"x.0")),
        Err(DecodeError::Amount(AmountError::IntegerPart))
    );
    assert_eq!(
        decode_fields(b"dispute", b"1", b"2", Some(b"1.00000")),
        Err(DecodeError::Amount(AmountError::FractionalPart))
    );
    // The first reason in the order of the fields is given.
    assert_eq!(decode_fields(b"refund", b"x", b"y", None), Err(DecodeError::Type));
    assert_eq!(decode_fields(b"deposit", b"x", b"y", None), Err(DecodeError::Client));
}

#[test]
fn records_of_three_or_four_fields() {
    let four = csv::ByteRecord::from(vec![" deposit", "3 ", " 4", "2.5 "]);
    assert_eq!(decode_record(&four), Ok(Operation::deposit(3, 4, 25_000)));
    let three = csv::ByteRecord::from(vec!["dispute", "3", "4"]);
    assert_eq!(decode_record(&three), Ok(Operation::dispute(3, 4)));
    let three = csv::ByteRecord::from(vec!["deposit", "3", "4"]);
    assert_eq!(decode_record(&three), Err(DecodeError::MissingAmount));
    let two = csv::ByteRecord::from(vec!["dispute", "3"]);
    assert_eq!(decode_record(&two), Err(DecodeError::Arity));
    let five = csv::ByteRecord::from(vec!["deposit", "3", "4", "1.0", ""]);
    assert_eq!(decode_record(&five), Err(DecodeError::Arity));
    assert_eq!(decode_record(&csv::ByteRecord::new()), Err(DecodeError::Arity));
}

#[test]
fn bad_rows_are_skipped() {
    let data = "deposit,1,1,1.0
refund,1,2,1.0
deposit,1,3
deposit,x,4,1.0
dispute,1,1
deposit,1,5,1.00001
withdrawal,1,6,0.5,extra
resolve,1,1,
";
    assert_eq!(
        parse_csv(data.as_bytes(), 100),
        vec![Operation::deposit(1, 1, 10_000), Operation::dispute(1, 1), Operation::resolve(1, 1)]
    );
}

#[test]
fn rows_of_different_lengths_in_one_batch() {
    let data = "deposit,0,1,10.0\ndispute,0,1\ndeposit,0,2,1.0\nchargeback,0,1\n";
    assert_eq!(
        parse_csv(data.as_bytes(), 100),
        vec![
            Operation::deposit(0, 1, 100_000),
            Operation::dispute(0, 1),
            Operation::deposit(0, 2, 10_000),
            Operation::chargeback(0, 1),
        ]
    );
}

#[test]
fn at_most_chunk_size_rows_are_read() {
    let data = "deposit,1,1,1.0\nbroken\ndeposit,1,2,2.0\ndeposit,1,3,3.0\n";
    assert_eq!(parse_csv(data.as_bytes(), 0), vec![]);
    assert_eq!(parse_csv(data.as_bytes(), 1), vec![Operation::deposit(1, 1, 10_000)]);
    // The broken row counts as one of the rows.
    assert_eq!(parse_csv(data.as_bytes(), 2), vec![Operation::deposit(1, 1, 10_000)]);
    assert_eq!(
        parse_csv(data.as_bytes(), 3),
        vec![Operation::deposit(1, 1, 10_000), Operation::deposit(1, 2, 20_000)]
    );
    assert_eq!(parse_csv(data.as_bytes(), 1_000_000).len(), 3);
    assert_eq!(parse_csv(data.as_bytes(), usize::MAX).len(), 3);
    assert_eq!(parse_csv(b"", 5), vec![]);
}

#[test]
fn rows_with_white_space_decode_like_rows_without() {
    let spaced = "  deposit , 0 , 1 , 100.0 \n withdrawal,0 ,2, 1.5\n";
    let plain = "deposit,0,1,100.0\nwithdrawal,0,2,1.5\n";
    assert_eq!(parse_csv(spaced.as_bytes(), 10), parse_csv(plain.as_bytes(), 10));
    assert_eq!(
        parse_csv(spaced.as_bytes(), 10),
        vec![Operation::deposit(0, 1, 1_000_000), Operation::withdrawal(0, 2, 15_000)]
    );
}

#[test]
fn operations_are_written_as_fields() {
    assert_eq!(
        encode_fields(&Operation::deposit(1, 2, 10_500)),
        vec!["deposit", "1", "2", "1.500"]
    );
    assert_eq!(encode_fields(&Operation::chargeback(65_535, 0)), vec!["chargeback", "65535", "0", "0.0"]);
}

#[test]
fn blank_lines_are_no_rows() {
    let data = "\n\ndeposit,1,1,1.0\n\n\ndeposit,1,2,2.0";
    assert_eq!(
        parse_csv(data.as_bytes(), 2),
        vec![Operation::deposit(1, 1, 10_000), Operation::deposit(1, 2, 20_000)]
    );
}

#[test]
fn skipped_rows_are_reported_with_their_place_and_reason() {
    let data = "deposit,1,1,1.0
refund,1,2,1.0
deposit,1,3
deposit,x,4,1.0
dispute,1,1
deposit,1,5,1.00001
withdrawal,1,6,0.5,extra
resolve,1,y,
";
    let undecodable = |row, reason| Rejected { row, reason: RowError::Undecodable(reason) };
    let mut rejected = vec![Rejected { row: 99, reason: RowError::Unreadable }];
    let operations = parse_rows(data.as_bytes(), 7, &mut rejected);
    assert_eq!(operations, vec![Operation::deposit(1, 1, 10_000), Operation::dispute(1, 1)]);
    assert_eq!(
        rejected,
        vec![
            Rejected { row: 99, reason: RowError::Unreadable },
            undecodable(1, DecodeError::Type),
            undecodable(2, DecodeError::MissingAmount),
            undecodable(3, DecodeError::Client),
            undecodable(5, DecodeError::Amount(AmountError::FractionalPart)),
            undecodable(6, DecodeError::Arity),
        ]
    );
    rejected.clear();
    parse_rows(data.as_bytes(), 100, &mut rejected);
    assert_eq!(rejected.len(), 6);
    assert_eq!(rejected[5], undecodable(7, DecodeError::Transaction));
}
