use chain_storage::codec::decode_row;
use chain_storage::codec::encode_row;
use chain_storage::error::StorageError;
use chain_storage::rows::Row;
use chain_storage::rows::TransactionInputRowData;
use chain_storage::rows::TransactionKernelRowData;
use chain_storage::rows::TransactionOutputRowData;

fn h(tag: u8) -> Vec<u8> {
    let mut v = vec![0u8; 32];
    v[0] = tag;
    v
}

#[test]
fn output_row_round_trips() {
    let row = TransactionOutputRowData {
        output: Some(vec![1, 2, 3, 4, 5]),
        header_hash: h(7),
        mmr_position: 41,
        hash: h(8),
        witness_hash: h(9),
        mined_height: 90210,
    };
    let bytes = encode_row(&Row::Output(row.clone_row()));
    match decode_row(&bytes).unwrap() {
        Row::Output(back) => {
            assert_eq!(back.output, Some(vec![1, 2, 3, 4, 5]));
            assert_eq!(back.header_hash, row.header_hash);
            assert_eq!(back.mmr_position, 41);
            assert_eq!(back.hash, row.hash);
            assert_eq!(back.witness_hash, row.witness_hash);
            assert_eq!(back.mined_height, 90210);
        }
        _ => panic!("decoded the wrong row kind"),
    }
}

#[test]
fn pruned_output_row_round_trips() {
    let row = TransactionOutputRowData {
        output: None,
        header_hash: h(1),
        mmr_position: 0,
        hash: h(2),
        witness_hash: h(3),
        mined_height: 1,
    };
    let bytes = encode_row(&Row::Output(row.clone_row()));
    match decode_row(&bytes).unwrap() {
        Row::Output(back) => {
            assert_eq!(back.output, None);
            assert_eq!(back.hash, row.hash);
            assert_eq!(back.witness_hash, row.witness_hash);
        }
        _ => panic!("decoded the wrong row kind"),
    }
}

#[test]
fn input_row_round_trips() {
    let row = TransactionInputRowData {
        input: vec![9, 9, 9],
        header_hash: h(4),
        mmr_position: 3,
        hash: h(5),
    };
    let bytes = encode_row(&Row::Input(row.clone_row()));
    match decode_row(&bytes).unwrap() {
        Row::Input(back) => {
            assert_eq!(back.input, vec![9, 9, 9]);
            assert_eq!(back.header_hash, row.header_hash);
            assert_eq!(back.mmr_position, 3);
            assert_eq!(back.hash, row.hash);
        }
        _ => panic!("decoded the wrong row kind"),
    }
}

#[test]
fn kernel_row_round_trips() {
    let row = TransactionKernelRowData {
        kernel: vec![],
        header_hash: h(6),
        mmr_position: 17,
        hash: h(7),
    };
    let bytes = encode_row(&Row::Kernel(row.clone_row()));
    match decode_row(&bytes).unwrap() {
        Row::Kernel(back) => {
            assert_eq!(back.kernel, Vec::<u8>::new());
            assert_eq!(back.mmr_position, 17);
            assert_eq!(back.hash, row.hash);
        }
        _ => panic!("decoded the wrong row kind"),
    }
}

#[test]
fn encoded_output_length_is_fixed_part_plus_payload() {
    let row = TransactionOutputRowData {
        output: Some(vec![0; 13]),
        header_hash: h(1),
        mmr_position: 5,
        hash: h(2),
        witness_hash: h(3),
        mined_height: 7,
    };
    let bytes = encode_row(&Row::Output(row));
    assert_eq!(bytes.len(), 110 + 13);
}

#[test]
fn decode_rejects_empty_record() {
    assert!(matches!(decode_row(&vec![]), Err(StorageError::CorruptRecord)));
}

#[test]
fn decode_rejects_unknown_tag() {
    let bytes = vec![9u8; 120];
    assert!(matches!(decode_row(&bytes), Err(StorageError::CorruptRecord)));
}

#[test]
fn decode_rejects_truncated_output() {
    let row = TransactionOutputRowData {
        output: Some(vec![1, 2, 3]),
        header_hash: h(1),
        mmr_position: 0,
        hash: h(2),
        witness_hash: h(3),
        mined_height: 1,
    };
    let mut bytes = encode_row(&Row::Output(row));
    bytes.truncate(50);
    assert!(matches!(decode_row(&bytes), Err(StorageError::CorruptRecord)));
}

#[test]
fn decode_rejects_bad_presence_marker() {
    let mut bytes = vec![0u8; 110];
    bytes[1] = 2;
    assert!(matches!(decode_row(&bytes), Err(StorageError::CorruptRecord)));
}

#[test]
fn decode_rejects_absent_payload_with_trailing_bytes() {
    let bytes = vec![0u8; 111];
    assert!(matches!(decode_row(&bytes), Err(StorageError::CorruptRecord)));
}
