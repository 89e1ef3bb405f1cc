use colcodec::api::TrackingWriter;
use colcodec::measurements::{
    CollectToCsv, EncodeMeasurement, MeasurementRunner, Scale, SeekMeasurement, ToCsv,
};
use colcodec::records::{CoinConfig, ContractBalance, ContractConfig, ContractState, MessageConfig};
use colcodec::util::{CountingSink, Data, Payload};

#[test]
fn counting_sink_counts() {
    let mut sink = CountingSink::new();
    assert_eq!(sink.written_bytes, 0);
    let n = sink.write(&[1, 2, 3, 4]);
    assert_eq!(n, 4);
    sink.flush();
    let n = sink.write(&[5, 6]);
    assert_eq!(n, 2);
    assert_eq!(sink.written_bytes, 6);
}

#[test]
fn tracking_writer_counts_and_appends() {
    let mut w = TrackingWriter::new(Vec::new());
    assert_eq!(w.written_bytes(), 0);
    w.write(&[10, 20]);
    w.write(&[30]);
    assert_eq!(w.written_bytes(), 3);
    let inner = w.into_inner();
    assert_eq!(inner, vec![10, 20, 30]);
}

#[test]
fn data_buffers() {
    let mut d = Data::<Vec<u8>>::with_capacity(16);
    assert_eq!(d.len(), 0);
    d.coins.push(1);
    d.coins.push(2);
    d.messages.push(3);
    d.contract_balance.push(4);
    assert_eq!(d.len(), 4);
    let r = d.as_ref();
    assert_eq!(r.len(), 4);
    assert!(!r.is_empty());
    d.clear();
    assert_eq!(d.len(), 0);
    assert!(d.as_ref().is_empty());
}

#[test]
fn payload_counts_entries() {
    let p = Payload {
        coins: vec![CoinConfig {
            tx_id: None,
            output_index: None,
            tx_pointer_block_height: None,
            tx_pointer_tx_idx: None,
            maturity: None,
            owner: vec![0; 32],
            amount: 1,
            asset_id: vec![0; 32],
        }],
        messages: Vec::<MessageConfig>::new(),
        contracts: Vec::<ContractConfig>::new(),
        contract_state: vec![ContractState { key: vec![0; 32], value: vec![0; 32] }],
        contract_balance: vec![ContractBalance { asset_id: vec![0; 32], amount: 5 }],
    };
    // State and balance entries are not counted, matching the encoders'
    // notion of primary entries.
    assert_eq!(p.num_entries(), 1);
}

#[test]
fn encode_measurement_csv() {
    let m = EncodeMeasurement { num_elements: 10, bytes: 256, encode_time: 1500, decode_time: 2500 };
    let mut out = Vec::new();
    m.to_csv(&mut out);
    assert_eq!(String::from_utf8(out).unwrap(), "10,256,1500,2500\n");
    let headers = EncodeMeasurement::headers();
    assert_eq!(headers, vec!["elements", "bytes", "encode_time", "decode_time"]);
}

#[test]
fn seek_measurement_csv() {
    let m = SeekMeasurement { num_elements: 5, normal: 100, compressed: 200 };
    let mut out = Vec::new();
    m.to_csv(&mut out);
    assert_eq!(String::from_utf8(out).unwrap(), "5,0,100\n5,1,200\n");
    let headers = SeekMeasurement::headers();
    assert_eq!(headers, vec!["elements", "compressed", "time"]);
}

#[test]
fn collect_csv_joins_rows() {
    let ms = vec![
        EncodeMeasurement { num_elements: 0, bytes: 0, encode_time: 0, decode_time: 0 },
        EncodeMeasurement { num_elements: 1, bytes: 99, encode_time: 12, decode_time: 34 },
    ];
    let mut out = Vec::new();
    ms.collect_csv(&mut out);
    assert_eq!(String::from_utf8(out).unwrap(), "0,0,0,0\n1,99,12,34\n");
}

#[test]
fn scale_labels() {
    assert_eq!(Scale::M.label(), "M");
    assert_eq!(Scale::G.label(), "G");
    assert_eq!(Scale::T.label(), "T");
}

#[test]
fn measurement_runner_config() {
    let r = MeasurementRunner::new(200_000, 10_000);
    assert_eq!(r.max, 200_000);
    assert_eq!(r.step, 10_000);
}
