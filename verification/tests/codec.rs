use colcodec::encoding::{Decode, Encode, ParquetCodec};
use colcodec::errors::{DecodeError, EncodeError};
use colcodec::records::{
    CoinConfig, ContractBalance, ContractConfig, ContractState, MessageConfig,
};
use colcodec::schema::{schema_block_for, schema_for, RecordType};

fn bytes32(seed: u8) -> Vec<u8> {
    let mut v = Vec::new();
    for i in 0..32u32 {
        v.push(seed.wrapping_add(i as u8));
    }
    v
}

fn coin(seed: u8) -> CoinConfig {
    CoinConfig {
        tx_id: Some(bytes32(seed)),
        output_index: Some(seed),
        tx_pointer_block_height: Some(1000 + seed as u32),
        tx_pointer_tx_idx: Some(2000 + seed as u16),
        maturity: Some(30 + seed as u32),
        owner: bytes32(seed.wrapping_add(1)),
        amount: 77_000 + seed as u64,
        asset_id: bytes32(seed.wrapping_add(2)),
    }
}

fn message(seed: u8) -> MessageConfig {
    MessageConfig {
        sender: bytes32(seed),
        recipient: bytes32(seed.wrapping_add(1)),
        nonce: bytes32(seed.wrapping_add(2)),
        amount: 5_000_000_000 + seed as u64,
        data: vec![seed; 3 + seed as usize % 5],
        da_height: 123_456 + seed as u64,
    }
}

fn contract(seed: u8) -> ContractConfig {
    ContractConfig {
        contract_id: bytes32(seed),
        code: vec![seed; 100 + seed as usize],
        salt: bytes32(seed.wrapping_add(3)),
        tx_id: if seed % 2 == 0 { Some(bytes32(seed.wrapping_add(4))) } else { None },
        output_index: if seed % 3 == 0 { Some(seed) } else { None },
        tx_pointer_block_height: Some(9_999 + seed as u32),
        tx_pointer_tx_idx: None,
    }
}

fn state(seed: u8) -> ContractState {
    ContractState { key: bytes32(seed), value: bytes32(seed.wrapping_add(7)) }
}

fn balance(seed: u8) -> ContractBalance {
    ContractBalance { asset_id: bytes32(seed), amount: u64::MAX - seed as u64 }
}

fn encode_coins(codec: &ParquetCodec, data: &Vec<CoinConfig>) -> Vec<u8> {
    let mut buf = Vec::new();
    Encode::<CoinConfig>::encode_subset(codec, data, &mut buf).unwrap();
    buf
}

fn decode_coins(codec: &ParquetCodec, buf: &Vec<u8>) -> Result<Vec<CoinConfig>, DecodeError> {
    Decode::<CoinConfig>::decode_subset(codec, buf)
}

#[test]
fn round_trip_coins_empty_one_many() {
    let codec = ParquetCodec::new(4, 0);
    for count in [0usize, 1, 11] {
        let data: Vec<CoinConfig> = (0..count).map(|i| coin(i as u8)).collect();
        let buf = encode_coins(&codec, &data);
        let back = decode_coins(&codec, &buf).unwrap();
        assert_eq!(back, data);
    }
}

#[test]
fn round_trip_messages_empty_one_many() {
    let codec = ParquetCodec::new(4, 0);
    for count in [0usize, 1, 11] {
        let data: Vec<MessageConfig> = (0..count).map(|i| message(i as u8)).collect();
        let mut buf = Vec::new();
        Encode::<MessageConfig>::encode_subset(&codec, &data, &mut buf).unwrap();
        let back: Vec<MessageConfig> =
            Decode::<MessageConfig>::decode_subset(&codec, &buf).unwrap();
        assert_eq!(back, data);
    }
}

#[test]
fn round_trip_contracts_empty_one_many() {
    let codec = ParquetCodec::new(4, 0);
    for count in [0usize, 1, 11] {
        let data: Vec<ContractConfig> = (0..count).map(|i| contract(i as u8)).collect();
        let mut buf = Vec::new();
        Encode::<ContractConfig>::encode_subset(&codec, &data, &mut buf).unwrap();
        let back: Vec<ContractConfig> =
            Decode::<ContractConfig>::decode_subset(&codec, &buf).unwrap();
        assert_eq!(back, data);
    }
}

#[test]
fn round_trip_contract_state_empty_one_many() {
    let codec = ParquetCodec::new(4, 0);
    for count in [0usize, 1, 11] {
        let data: Vec<ContractState> = (0..count).map(|i| state(i as u8)).collect();
        let mut buf = Vec::new();
        Encode::<ContractState>::encode_subset(&codec, &data, &mut buf).unwrap();
        let back: Vec<ContractState> =
            Decode::<ContractState>::decode_subset(&codec, &buf).unwrap();
        assert_eq!(back, data);
    }
}

#[test]
fn round_trip_contract_balance_empty_one_many() {
    let codec = ParquetCodec::new(4, 0);
    for count in [0usize, 1, 11] {
        let data: Vec<ContractBalance> = (0..count).map(|i| balance(i as u8)).collect();
        let mut buf = Vec::new();
        Encode::<ContractBalance>::encode_subset(&codec, &data, &mut buf).unwrap();
        let back: Vec<ContractBalance> =
            Decode::<ContractBalance>::decode_subset(&codec, &buf).unwrap();
        assert_eq!(back, data);
    }
}

#[test]
fn all_null_optionals_round_trip() {
    let codec = ParquetCodec::new(3, 0);
    let data: Vec<CoinConfig> = (0..7)
        .map(|i| CoinConfig {
            tx_id: None,
            output_index: None,
            tx_pointer_block_height: None,
            tx_pointer_tx_idx: None,
            maturity: None,
            owner: bytes32(i),
            amount: i as u64,
            asset_id: bytes32(i + 1),
        })
        .collect();
    let buf = encode_coins(&codec, &data);
    let back = decode_coins(&codec, &buf).unwrap();
    assert_eq!(back, data);
    for c in &back {
        assert!(c.tx_id.is_none());
        assert!(c.output_index.is_none());
        assert!(c.maturity.is_none());
    }
}

#[test]
fn mixed_nulls_preserved_per_row() {
    let codec = ParquetCodec::new(2, 0);
    let mut data = Vec::new();
    for i in 0..6u8 {
        let mut c = coin(i);
        if i % 2 == 0 {
            c.tx_id = None;
        }
        if i % 3 == 0 {
            c.output_index = None;
        }
        data.push(c);
    }
    let buf = encode_coins(&codec, &data);
    let back = decode_coins(&codec, &buf).unwrap();
    assert_eq!(back, data);
    for i in 0..6usize {
        assert_eq!(back[i].tx_id.is_none(), i % 2 == 0);
        assert_eq!(back[i].output_index.is_none(), i % 3 == 0);
    }
}

#[test]
fn chunk_size_invariance() {
    let data: Vec<CoinConfig> = (0..10).map(|i| coin(i as u8)).collect();
    let buf1 = encode_coins(&ParquetCodec::new(1, 0), &data);
    let buf7 = encode_coins(&ParquetCodec::new(7, 0), &data);
    let buf10 = encode_coins(&ParquetCodec::new(10, 0), &data);
    // Different row-group counts produce different containers...
    assert_ne!(buf1, buf7);
    assert_ne!(buf7, buf10);
    // ...but identical decoded batches, whatever codec instance decodes.
    let any = ParquetCodec::new(99, 3);
    assert_eq!(decode_coins(&any, &buf1).unwrap(), data);
    assert_eq!(decode_coins(&any, &buf7).unwrap(), data);
    assert_eq!(decode_coins(&any, &buf10).unwrap(), data);
}

#[test]
fn compression_invariance() {
    let data: Vec<ContractConfig> = (0..9).map(|i| contract(i as u8)).collect();
    let mut plain = Vec::new();
    Encode::<ContractConfig>::encode_subset(&ParquetCodec::new(4, 0), &data, &mut plain).unwrap();
    let mut packed = Vec::new();
    Encode::<ContractConfig>::encode_subset(&ParquetCodec::new(4, 6), &data, &mut packed).unwrap();
    // The compressible bytecode columns make the compressed container smaller.
    assert!(packed.len() < plain.len());
    // Both decode to the identical logical batch, independently of the
    // instance that encoded them.
    let other = ParquetCodec::new(1, 1);
    let from_plain: Vec<ContractConfig> =
        Decode::<ContractConfig>::decode_subset(&other, &plain).unwrap();
    let from_packed: Vec<ContractConfig> =
        Decode::<ContractConfig>::decode_subset(&other, &packed).unwrap();
    assert_eq!(from_plain, data);
    assert_eq!(from_packed, data);
}

#[test]
fn width_narrowing_preserves_255() {
    let codec = ParquetCodec::new(4, 0);
    let mut c = coin(1);
    c.output_index = Some(255);
    c.tx_pointer_tx_idx = Some(65535);
    let data = vec![c];
    let buf = encode_coins(&codec, &data);
    let back = decode_coins(&codec, &buf).unwrap();
    assert_eq!(back[0].output_index, Some(255));
    assert_eq!(back[0].tx_pointer_tx_idx, Some(65535));
}

#[test]
fn three_coins_two_row_groups() {
    let codec = ParquetCodec::new(2, 0);
    let mut a = coin(1);
    a.tx_id = Some(bytes32(10));
    let mut b = coin(2);
    b.tx_id = Some(bytes32(20));
    let mut c = coin(3);
    c.tx_id = None;
    let data = vec![a.clone(), b.clone(), c.clone()];
    let buf = encode_coins(&codec, &data);
    let back = decode_coins(&codec, &buf).unwrap();
    assert_eq!(back.len(), 3);
    assert_eq!(back[0], a);
    assert_eq!(back[1], b);
    assert_eq!(back[2], c);
    assert!(back[2].tx_id.is_none());
}

#[test]
fn schema_descriptor_is_stable() {
    for rt in [
        RecordType::Coin,
        RecordType::Message,
        RecordType::Contract,
        RecordType::ContractState,
        RecordType::ContractBalance,
    ] {
        let s1 = schema_for(rt);
        let s2 = schema_for(rt);
        assert_eq!(s1.len(), s2.len());
        for i in 0..s1.len() {
            assert_eq!(s1[i].name, s2[i].name);
            assert_eq!(s1[i].ptype, s2[i].ptype);
            assert_eq!(s1[i].nullable, s2[i].nullable);
        }
    }
}

#[test]
fn schema_matches_column_count() {
    assert_eq!(schema_for(RecordType::Coin).len(), 8);
    assert_eq!(schema_for(RecordType::Message).len(), 6);
    assert_eq!(schema_for(RecordType::Contract).len(), 7);
    assert_eq!(schema_for(RecordType::ContractState).len(), 2);
    assert_eq!(schema_for(RecordType::ContractBalance).len(), 2);
}

#[test]
fn garbage_is_malformed() {
    let codec = ParquetCodec::new(4, 0);
    let garbage = vec![1u8, 2, 3, 4, 5];
    let res: Result<Vec<CoinConfig>, DecodeError> = codec.decode_subset(&garbage);
    assert_eq!(res.unwrap_err(), DecodeError::Malformed);
}

#[test]
fn truncated_container_is_malformed() {
    let codec = ParquetCodec::new(4, 0);
    let data: Vec<CoinConfig> = (0..5).map(|i| coin(i as u8)).collect();
    let mut buf = encode_coins(&codec, &data);
    buf.truncate(buf.len() - 3);
    let res = decode_coins(&codec, &buf);
    assert_eq!(res.unwrap_err(), DecodeError::Malformed);
}

#[test]
fn wrong_record_type_is_schema_mismatch() {
    let codec = ParquetCodec::new(4, 0);
    let data: Vec<CoinConfig> = (0..3).map(|i| coin(i as u8)).collect();
    let buf = encode_coins(&codec, &data);
    let res: Result<Vec<MessageConfig>, DecodeError> = codec.decode_subset(&buf);
    assert_eq!(res.unwrap_err(), DecodeError::SchemaMismatch);
}

#[test]
fn out_of_range_widened_integer_is_rejected() {
    // A hand-built coin container whose one row stores 300 in the 8-bit
    // output index column: decode must reject it, not truncate it.
    let mut buf = Vec::new();
    buf.extend_from_slice(&[67u8, 80, 81, 49, 1]); // magic, version
    buf.extend_from_slice(&[0u8, 0]); // no compression
    buf.extend_from_slice(&schema_block_for(RecordType::Coin));
    buf.extend_from_slice(&1u64.to_le_bytes()); // one row
    let mut body = Vec::new();
    body.extend_from_slice(&1u32.to_le_bytes()); // one group of one row
    body.push(0); // tx_id: null
    body.push(1); // output_index: present...
    body.extend_from_slice(&300u32.to_le_bytes()); // ...but out of range
    body.push(0); // tx_pointer_block_height: null
    body.push(0); // tx_pointer_tx_idx: null
    body.push(0); // maturity: null
    body.extend_from_slice(&[7u8; 32]); // owner
    body.extend_from_slice(&42u64.to_le_bytes()); // amount
    body.extend_from_slice(&[9u8; 32]); // asset_id
    buf.extend_from_slice(&(body.len() as u64).to_le_bytes());
    buf.extend_from_slice(&body);
    let codec = ParquetCodec::new(4, 0);
    let res: Result<Vec<CoinConfig>, DecodeError> = codec.decode_subset(&buf);
    assert_eq!(res.unwrap_err(), DecodeError::ValueOutOfRange);
}

#[test]
fn hand_built_container_decodes() {
    // The same hand-built container with 250 in range decodes to the row.
    let mut buf = Vec::new();
    buf.extend_from_slice(&[67u8, 80, 81, 49, 1]);
    buf.extend_from_slice(&[0u8, 0]);
    buf.extend_from_slice(&schema_block_for(RecordType::Coin));
    buf.extend_from_slice(&1u64.to_le_bytes());
    let mut body = Vec::new();
    body.extend_from_slice(&1u32.to_le_bytes());
    body.push(0);
    body.push(1);
    body.extend_from_slice(&250u32.to_le_bytes());
    body.push(0);
    body.push(0);
    body.push(0);
    body.extend_from_slice(&[7u8; 32]);
    body.extend_from_slice(&42u64.to_le_bytes());
    body.extend_from_slice(&[9u8; 32]);
    buf.extend_from_slice(&(body.len() as u64).to_le_bytes());
    buf.extend_from_slice(&body);
    let codec = ParquetCodec::new(4, 0);
    let back: Vec<CoinConfig> = codec.decode_subset(&buf).unwrap();
    assert_eq!(back.len(), 1);
    assert_eq!(back[0].output_index, Some(250));
    assert_eq!(back[0].owner, vec![7u8; 32]);
    assert_eq!(back[0].amount, 42);
    // And the encoder produces exactly these bytes for that record.
    let record = CoinConfig {
        tx_id: None,
        output_index: Some(250),
        tx_pointer_block_height: None,
        tx_pointer_tx_idx: None,
        maturity: None,
        owner: vec![7u8; 32],
        amount: 42,
        asset_id: vec![9u8; 32],
    };
    let encoded = encode_coins(&codec, &vec![record]);
    assert_eq!(encoded, buf);
}

#[test]
fn malformed_record_is_rejected() {
    let codec = ParquetCodec::new(4, 0);
    let mut c = coin(1);
    c.owner = vec![1, 2, 3]; // not 32 bytes wide
    let data = vec![c];
    let mut buf = Vec::new();
    let res = Encode::<CoinConfig>::encode_subset(&codec, &data, &mut buf);
    assert_eq!(res.unwrap_err(), EncodeError::MalformedRecord);
    assert!(buf.is_empty());
}

#[test]
fn mememe() {
    let codec = ParquetCodec {
        batch_size: 10,
        compression_level: 0,
    };
    let mut buffer = Vec::new();
    let cc = contract(5);
    println!("{cc:?}");
    Encode::<ContractConfig>::encode_subset(&codec, &vec![cc.clone()], &mut buffer).unwrap();

    let back: Vec<ContractConfig> = Decode::<ContractConfig>::decode_subset(&codec, &buffer)
        .unwrap();
    assert_eq!(back, vec![cc]);
}

#[test]
fn heyhay() {
    let schema = schema_for(RecordType::Contract);
    assert_eq!(schema.len(), 7);
    let mut buf = Vec::new();
    let cc = contract(9);
    let codec = ParquetCodec::new(1, 0);
    Encode::<ContractConfig>::encode_subset(&codec, &vec![cc], &mut buf).unwrap();

    println!("{}", buf.len());
    assert!(buf.len() > 0);
}
