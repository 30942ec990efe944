//! Decoding the canonical encoded bytes of a built transaction reproduces
//! the configured inputs, outputs, fee and ttl.  The decoding here is done
//! by hand, independently of the library.

use txbuilder::{NetworkParams, TransactionBuilder, TransactionInput, TransactionOutput};

fn hex_to_bytes(s: &str) -> Vec<u8> {
    let digits: Vec<u8> = s
        .bytes()
        .map(|c| match c {
            b'0'..=b'9' => c - b'0',
            b'a'..=b'f' => c - b'a' + 10,
            _ => panic!("not a hex digit"),
        })
        .collect();
    digits.chunks(2).map(|p| p[0] * 16 + p[1]).collect()
}

/// Reads a CBOR head of the given major type; returns (argument, next position).
fn read_head(bytes: &[u8], pos: usize, major: u8) -> (u64, usize) {
    let b0 = bytes[pos];
    assert_eq!(b0 >> 5, major, "unexpected major type at {pos}");
    let arg = (b0 & 0x1f) as u64;
    match arg {
        0..=23 => (arg, pos + 1),
        24 => (bytes[pos + 1] as u64, pos + 2),
        25 => (((bytes[pos + 1] as u64) << 8) | bytes[pos + 2] as u64, pos + 3),
        26 => {
            let mut v: u64 = 0;
            for i in 0..4 {
                v = (v << 8) | bytes[pos + 1 + i] as u64;
            }
            (v, pos + 5)
        }
        _ => panic!("unsupported head"),
    }
}

#[test]
fn decoding_a_built_transaction_reproduces_its_fields() {
    let input = TransactionInput::new([7; 32], 5);
    let resolved = TransactionOutput::lovelaces(vec![], 1000000);
    let output = TransactionOutput::lovelaces(vec![0xab, 0xcd], 2000000);

    let tx = TransactionBuilder::new(NetworkParams::mainnet())
        .input(input, Some(resolved))
        .output(output)
        .invalid_from_slot(22370909)
        .build()
        .expect("build failed");
    let fee = tx.body.fee;
    let hex = tx.hex_encoded().expect("hex encoding failed");
    let bytes = hex_to_bytes(&hex);

    // transaction = [body, witness set, validity]
    let (n_tx, pos) = read_head(&bytes, 0, 4);
    assert_eq!(n_tx, 3);
    // body map: inputs (key 0), outputs (1), fee (2), ttl (3)
    let (n_fields, pos) = read_head(&bytes, pos, 5);
    assert_eq!(n_fields, 4);
    let (k, pos) = read_head(&bytes, pos, 0);
    assert_eq!(k, 0);
    let (n_inputs, pos) = read_head(&bytes, pos, 4);
    assert_eq!(n_inputs, 1);
    let (n_pair, pos) = read_head(&bytes, pos, 4);
    assert_eq!(n_pair, 2);
    let (id_len, pos) = read_head(&bytes, pos, 2);
    assert_eq!(id_len, 32);
    assert_eq!(&bytes[pos..pos + 32], &[7u8; 32]);
    let pos = pos + 32;
    let (index, pos) = read_head(&bytes, pos, 0);
    assert_eq!(index, 5);
    let (k, pos) = read_head(&bytes, pos, 0);
    assert_eq!(k, 1);
    let (n_outputs, pos) = read_head(&bytes, pos, 4);
    assert_eq!(n_outputs, 1);
    let (n_out_fields, pos) = read_head(&bytes, pos, 5);
    assert_eq!(n_out_fields, 2);
    let (k, pos) = read_head(&bytes, pos, 0);
    assert_eq!(k, 0);
    let (addr_len, pos) = read_head(&bytes, pos, 2);
    assert_eq!(addr_len, 2);
    assert_eq!(&bytes[pos..pos + 2], &[0xab, 0xcd]);
    let pos = pos + 2;
    let (k, pos) = read_head(&bytes, pos, 0);
    assert_eq!(k, 1);
    let (coin, pos) = read_head(&bytes, pos, 0);
    assert_eq!(coin, 2000000);
    let (k, pos) = read_head(&bytes, pos, 0);
    assert_eq!(k, 2);
    let (decoded_fee, pos) = read_head(&bytes, pos, 0);
    assert_eq!(decoded_fee, fee);
    let (k, pos) = read_head(&bytes, pos, 0);
    assert_eq!(k, 3);
    let (ttl, _pos) = read_head(&bytes, pos, 0);
    assert_eq!(ttl, 22370909);
}
