use bitcoin_codec::{
    BitcoinError, BitcoinTransaction, CompactSize, OutPoint, Script, TransactionInput, Txid,
};

fn varint_case(value: u64, tag: Option<u8>, len: usize) {
    let bytes = CompactSize::new(value).to_bytes();
    assert_eq!(bytes.len(), len);
    if let Some(t) = tag {
        assert_eq!(bytes[0], t);
    } else {
        assert_eq!(bytes[0] as u64, value);
    }
    let (decoded, consumed) = CompactSize::from_bytes(&bytes).unwrap();
    assert_eq!(decoded.value, value);
    assert_eq!(consumed, len);
}

#[test]
fn varint_boundary_values() {
    varint_case(0, None, 1);
    varint_case(0xFC, None, 1);
    varint_case(0xFD, Some(0xFD), 3);
    varint_case(0xFFFF, Some(0xFD), 3);
    varint_case(0x10000, Some(0xFE), 5);
    varint_case(0xFFFF_FFFF, Some(0xFE), 5);
    varint_case(0x1_0000_0000, Some(0xFF), 9);
    varint_case(u64::MAX, Some(0xFF), 9);
}

#[test]
fn varint_exact_encodings() {
    assert_eq!(CompactSize::new(0xFD).to_bytes(), vec![0xFD, 0xFD, 0x00]);
    assert_eq!(CompactSize::new(0x1234).to_bytes(), vec![0xFD, 0x34, 0x12]);
    assert_eq!(
        CompactSize::new(0x1234_5678).to_bytes(),
        vec![0xFE, 0x78, 0x56, 0x34, 0x12]
    );
    assert_eq!(
        CompactSize::new(0x0102_0304_0506_0708).to_bytes(),
        vec![0xFF, 0x08, 0x07, 0x06, 0x05, 0x04, 0x03, 0x02, 0x01]
    );
}

#[test]
fn varint_truncated_fails() {
    assert_eq!(
        CompactSize::from_bytes(&[0xFD, 0x00]),
        Err(BitcoinError::InsufficientBytes)
    );
    assert_eq!(
        CompactSize::from_bytes(&[0xFD]),
        Err(BitcoinError::InsufficientBytes)
    );
    assert_eq!(CompactSize::from_bytes(&[]), Err(BitcoinError::InsufficientBytes));
    assert_eq!(
        CompactSize::from_bytes(&[0xFE, 1, 2, 3]),
        Err(BitcoinError::InsufficientBytes)
    );
    assert_eq!(
        CompactSize::from_bytes(&[0xFF, 1, 2, 3, 4, 5, 6, 7]),
        Err(BitcoinError::InsufficientBytes)
    );
}

#[test]
fn varint_every_prefix_fails() {
    for value in [0xFDu64, 0x10000, 0x1_0000_0000] {
        let bytes = CompactSize::new(value).to_bytes();
        for j in 0..bytes.len() {
            assert_eq!(
                CompactSize::from_bytes(&bytes[..j]),
                Err(BitcoinError::InsufficientBytes)
            );
        }
    }
}

#[test]
fn varint_non_canonical_accepted() {
    let (c, n) = CompactSize::from_bytes(&[0xFD, 0x05, 0x00]).unwrap();
    assert_eq!(c.value, 5);
    assert_eq!(n, 3);
}

#[test]
fn varint_ignores_trailing_bytes() {
    let (c, n) = CompactSize::from_bytes(&[0x07, 0xAA, 0xBB]).unwrap();
    assert_eq!(c.value, 7);
    assert_eq!(n, 1);
}

#[test]
fn empty_script() {
    let s = Script::new(vec![]);
    assert_eq!(s.to_bytes(), vec![0x00]);
    let (d, n) = Script::from_bytes(&[0x00]).unwrap();
    assert!(d.bytes.is_empty());
    assert_eq!(n, 1);
}

#[test]
fn script_round_trip() {
    let s = Script::new(vec![1, 2, 3]);
    let bytes = s.to_bytes();
    assert_eq!(bytes, vec![3, 1, 2, 3]);
    let (d, n) = Script::from_bytes(&bytes).unwrap();
    assert_eq!(d, s);
    assert_eq!(n, 4);
    assert_eq!(d.len(), 3);
}

#[test]
fn oversized_script_length() {
    let bytes = vec![0xFE, 0xFF, 0xFF, 0xFF, 0xFF, 1, 2, 3];
    assert_eq!(Script::from_bytes(&bytes), Err(BitcoinError::InsufficientBytes));
    let huge = vec![0xFF, 0xFF, 0xFF, 0xFF, 0xFF, 0xFF, 0xFF, 0xFF, 0xFF, 1];
    assert_eq!(Script::from_bytes(&huge), Err(BitcoinError::InsufficientBytes));
}

#[test]
fn script_one_byte_short() {
    assert_eq!(
        Script::from_bytes(&[3, 1, 2]),
        Err(BitcoinError::InsufficientBytes)
    );
}

#[test]
fn outpoint_encoding() {
    let o = OutPoint::new([0xAB; 32], 0x0102_0304);
    let bytes = o.to_bytes();
    assert_eq!(bytes.len(), 36);
    assert_eq!(&bytes[..32], &[0xAB; 32][..]);
    assert_eq!(&bytes[32..], &[0x04, 0x03, 0x02, 0x01][..]);
    let (d, n) = OutPoint::from_bytes(&bytes).unwrap();
    assert_eq!(d, o);
    assert_eq!(n, 36);
    assert_eq!(
        OutPoint::from_bytes(&bytes[..35]),
        Err(BitcoinError::InsufficientBytes)
    );
}

#[test]
fn input_round_trip() {
    let input = TransactionInput::new(
        OutPoint::new([7; 32], 2),
        Script::new(vec![0x51, 0x52]),
        0xFFFF_FFFE,
    );
    let bytes = input.to_bytes();
    assert_eq!(bytes.len(), 36 + 1 + 2 + 4);
    assert_eq!(&bytes[39..], &[0xFE, 0xFF, 0xFF, 0xFF][..]);
    let (d, n) = TransactionInput::from_bytes(&bytes).unwrap();
    assert_eq!(d, input);
    assert_eq!(n, bytes.len());
    assert_eq!(
        TransactionInput::from_bytes(&bytes[..bytes.len() - 1]),
        Err(BitcoinError::InsufficientBytes)
    );
}

#[test]
fn zero_input_transaction() {
    let tx = BitcoinTransaction::new(1, vec![], 0);
    let bytes = tx.to_bytes();
    assert_eq!(bytes, vec![1, 0, 0, 0, 0, 0, 0, 0, 0]);
    let (d, n) = BitcoinTransaction::from_bytes(&bytes).unwrap();
    assert!(d.inputs.is_empty());
    assert_eq!(d, tx);
    assert_eq!(n, 9);
}

fn two_input_transaction() -> BitcoinTransaction {
    let a = TransactionInput::new(OutPoint::new([1; 32], 0), Script::new(vec![0xAA]), 10);
    let b = TransactionInput::new(
        OutPoint::new([2; 32], 5),
        Script::new(vec![0xBB; 300]),
        20,
    );
    BitcoinTransaction::new(2, vec![a, b], 0x0A0B_0C0D)
}

#[test]
fn multi_input_transaction() {
    let tx = two_input_transaction();
    let bytes = tx.to_bytes();
    let first = 36 + 1 + 1 + 4;
    let second = 36 + 3 + 300 + 4;
    assert_eq!(bytes.len(), 4 + 1 + first + second + 4);
    let (d, n) = BitcoinTransaction::from_bytes(&bytes).unwrap();
    assert_eq!(n, bytes.len());
    assert_eq!(d.inputs.len(), 2);
    assert_eq!(d.inputs[0].previous_output.txid, Txid([1; 32]));
    assert_eq!(d.inputs[1].previous_output.txid, Txid([2; 32]));
    assert_eq!(d.inputs[1].script_sig.bytes, vec![0xBB; 300]);
    assert_eq!(d, tx);
    assert_eq!(&bytes[bytes.len() - 4..], &[0x0D, 0x0C, 0x0B, 0x0A][..]);
}

#[test]
fn transaction_every_prefix_fails() {
    let bytes = two_input_transaction().to_bytes();
    for j in 0..bytes.len() {
        assert_eq!(
            BitcoinTransaction::from_bytes(&bytes[..j]),
            Err(BitcoinError::InsufficientBytes)
        );
    }
}

#[test]
fn transaction_count_larger_than_buffer() {
    let bytes = vec![1, 0, 0, 0, 0xFF, 0xFF, 0xFF, 0xFF, 0xFF, 0xFF, 0xFF, 0xFF, 0xFF, 0, 0, 0, 0];
    assert_eq!(
        BitcoinTransaction::from_bytes(&bytes),
        Err(BitcoinError::InsufficientBytes)
    );
}

#[test]
fn transaction_trailing_bytes_not_consumed() {
    let mut bytes = BitcoinTransaction::new(3, vec![], 7).to_bytes();
    bytes.extend_from_slice(&[9, 9]);
    let (d, n) = BitcoinTransaction::from_bytes(&bytes).unwrap();
    assert_eq!(n, 9);
    assert_eq!(d.version, 3);
    assert_eq!(d.lock_time, 7);
}

#[test]
fn txid_hex_round_trip() {
    let mut id = [0u8; 32];
    for (i, b) in id.iter_mut().enumerate() {
        *b = (i * 8) as u8;
    }
    let t = Txid(id);
    let text = t.to_hex();
    assert_eq!(text.len(), 64);
    assert!(text.starts_with("0008101820"));
    assert_eq!(Txid::from_hex(&text), Ok(t.clone()));
    assert_eq!(Txid::from_hex(&text.to_uppercase()), Ok(t));
}

#[test]
fn txid_hex_rejects() {
    assert_eq!(Txid::from_hex("abcd"), Err(BitcoinError::InvalidFormat));
    assert_eq!(Txid::from_hex(&"g".repeat(64)), Err(BitcoinError::InvalidFormat));
    assert_eq!(Txid::from_hex(&"0".repeat(63)), Err(BitcoinError::InvalidFormat));
    assert_eq!(Txid::from_hex(&"ab".repeat(32)), Ok(Txid([0xAB; 32])));
}

#[test]
fn transaction_report() {
    let input = TransactionInput::new(
        OutPoint::new([0x0F; 32], 12),
        Script::new(vec![0xDE, 0xAD]),
        4294967295,
    );
    let tx = BitcoinTransaction::new(1, vec![input], 0);
    let expected = format!(
        "Transaction:\n  Version: 1\n  Inputs: [\n    Input:\n      Previous Output:\n        Txid: {}\n        Previous Output Vout: 12\n      Script Sig:\n        Length: 2\n        Bytes: dead\n      Sequence: 4294967295\n  ]\n  Lock Time: 0\n",
        "0f".repeat(32)
    );
    assert_eq!(tx.to_string(), expected);
}

#[test]
fn empty_transaction_report() {
    let tx = BitcoinTransaction::new(70000, vec![], 500);
    assert_eq!(
        tx.to_string(),
        "Transaction:\n  Version: 70000\n  Inputs: [\n  ]\n  Lock Time: 500\n"
    );
}
