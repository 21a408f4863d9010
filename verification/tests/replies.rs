//! Reply decoding against reference encodings: typed tables, the
//! error-string fallback, and malformed input.
use meritrank_client::rows::{
    decode_ack_table, decode_connection_table, decode_id_table, decode_node_weight_table,
    decode_score_table, decode_string_reply, ReplyError,
};

#[test]
fn score_rows_decode_from_reference_encoding() {
    let rows = vec![
        ("U1".to_string(), "U2".to_string(), 1.5f64),
        ("U3".to_string(), "U4".to_string(), -0.25f64),
    ];
    let bytes = rmp_serde::to_vec(&rows).unwrap();
    let decoded = decode_score_table(&bytes).unwrap();
    assert_eq!(decoded.len(), 2);
    assert_eq!(decoded[0].ego, b"U1".to_vec());
    assert_eq!(decoded[0].target, b"U2".to_vec());
    assert_eq!(decoded[0].score_bits, 1.5f64.to_bits());
    assert_eq!(decoded[1].ego, b"U3".to_vec());
    assert_eq!(decoded[1].target, b"U4".to_vec());
    assert_eq!(decoded[1].score_bits, (-0.25f64).to_bits());
}

#[test]
fn empty_score_table_decodes() {
    let rows: Vec<(String, String, f64)> = Vec::new();
    let bytes = rmp_serde::to_vec(&rows).unwrap();
    assert_eq!(decode_score_table(&bytes).unwrap().len(), 0);
}

#[test]
fn large_score_table_decodes() {
    let mut rows: Vec<(String, String, f64)> = Vec::new();
    for i in 0..100 {
        rows.push((format!("U{}", i), format!("B{}", i), i as f64 / 3.0));
    }
    let bytes = rmp_serde::to_vec(&rows).unwrap();
    let decoded = decode_score_table(&bytes).unwrap();
    assert_eq!(decoded.len(), 100);
    for i in 0..100 {
        assert_eq!(decoded[i].ego, format!("U{}", i).into_bytes());
        assert_eq!(decoded[i].target, format!("B{}", i).into_bytes());
        assert_eq!(decoded[i].score_bits, (i as f64 / 3.0).to_bits());
    }
}

#[test]
fn special_floats_survive_decoding_bit_for_bit() {
    let values = [0.0f64, -0.0, f64::MIN, f64::MAX, f64::INFINITY, f64::NEG_INFINITY, f64::NAN];
    for v in values {
        let rows = vec![("a".to_string(), "b".to_string(), v)];
        let bytes = rmp_serde::to_vec(&rows).unwrap();
        let decoded = decode_score_table(&bytes).unwrap();
        assert_eq!(decoded[0].score_bits, v.to_bits());
    }
}

#[test]
fn error_string_reply_becomes_server_error() {
    let bytes = rmp_serde::to_vec(&"node not found").unwrap();
    let err = decode_score_table(&bytes).unwrap_err();
    assert_eq!(err, ReplyError::Server(b"node not found".to_vec()));
}

#[test]
fn garbage_reply_is_malformed() {
    let err = decode_score_table(&[0xc1, 0x00, 0x12]).unwrap_err();
    assert_eq!(err, ReplyError::Malformed);
}

#[test]
fn wrong_arity_reply_falls_back() {
    // rows of two columns where three are expected
    let rows = vec![("U1".to_string(), "U2".to_string())];
    let bytes = rmp_serde::to_vec(&rows).unwrap();
    assert_eq!(decode_score_table(&bytes).unwrap_err(), ReplyError::Malformed);
}

#[test]
fn node_weight_rows_decode_from_reference_encoding() {
    let rows = vec![("N1".to_string(), 0.5f64), ("N2".to_string(), 2.0f64)];
    let bytes = rmp_serde::to_vec(&rows).unwrap();
    let decoded = decode_node_weight_table(&bytes).unwrap();
    assert_eq!(decoded.len(), 2);
    assert_eq!(decoded[0].node, b"N1".to_vec());
    assert_eq!(decoded[0].weight_bits, 0.5f64.to_bits());
    assert_eq!(decoded[1].node, b"N2".to_vec());
    assert_eq!(decoded[1].weight_bits, 2.0f64.to_bits());
}

#[test]
fn node_weight_error_string_becomes_server_error() {
    let bytes = rmp_serde::to_vec(&"boom").unwrap();
    let err = decode_node_weight_table(&bytes).unwrap_err();
    assert_eq!(err, ReplyError::Server(b"boom".to_vec()));
}

#[test]
fn id_rows_decode_from_reference_encoding() {
    let rows = vec![("U1".to_string(),), ("U2".to_string(),), ("U3".to_string(),)];
    let bytes = rmp_serde::to_vec(&rows).unwrap();
    let decoded = decode_id_table(&bytes).unwrap();
    assert_eq!(decoded, vec![b"U1".to_vec(), b"U2".to_vec(), b"U3".to_vec()]);
}

#[test]
fn connection_rows_decode_from_reference_encoding() {
    let rows = vec![("U1".to_string(), "U2".to_string()), ("U1".to_string(), "U3".to_string())];
    let bytes = rmp_serde::to_vec(&rows).unwrap();
    let decoded = decode_connection_table(&bytes).unwrap();
    assert_eq!(decoded.len(), 2);
    assert_eq!(decoded[0].source, b"U1".to_vec());
    assert_eq!(decoded[0].target, b"U2".to_vec());
    assert_eq!(decoded[1].source, b"U1".to_vec());
    assert_eq!(decoded[1].target, b"U3".to_vec());
}

#[test]
fn ack_rows_decode_from_reference_encoding() {
    let rows: Vec<()> = vec![(), (), ()];
    let bytes = rmp_serde::to_vec(&rows).unwrap();
    assert_eq!(decode_ack_table(&bytes).unwrap(), 3);
}

#[test]
fn empty_ack_decodes() {
    let rows: Vec<()> = Vec::new();
    let bytes = rmp_serde::to_vec(&rows).unwrap();
    assert_eq!(decode_ack_table(&bytes).unwrap(), 0);
}

#[test]
fn ack_error_string_becomes_server_error() {
    let bytes = rmp_serde::to_vec(&"cannot delete").unwrap();
    let err = decode_ack_table(&bytes).unwrap_err();
    assert_eq!(err, ReplyError::Server(b"cannot delete".to_vec()));
}

#[test]
fn string_reply_decodes() {
    let bytes = rmp_serde::to_vec(&"0.5.1").unwrap();
    assert_eq!(decode_string_reply(&bytes).unwrap(), b"0.5.1".to_vec());
}

#[test]
fn non_string_reply_is_not_a_string() {
    let rows = vec![("U1".to_string(), "U2".to_string(), 1.0f64)];
    let bytes = rmp_serde::to_vec(&rows).unwrap();
    assert!(decode_string_reply(&bytes).is_none());
}

#[test]
fn long_strings_in_rows_decode() {
    let long_a = "x".repeat(40);
    let long_b = "y".repeat(400);
    let rows = vec![(long_a.clone(), long_b.clone(), 3.25f64)];
    let bytes = rmp_serde::to_vec(&rows).unwrap();
    let decoded = decode_score_table(&bytes).unwrap();
    assert_eq!(decoded[0].ego, long_a.into_bytes());
    assert_eq!(decoded[0].target, long_b.into_bytes());
}

#[test]
fn truncated_reply_is_malformed() {
    let rows = vec![("U1".to_string(), "U2".to_string(), 1.0f64)];
    let mut bytes = rmp_serde::to_vec(&rows).unwrap();
    bytes.truncate(bytes.len() - 4);
    assert_eq!(decode_score_table(&bytes).unwrap_err(), ReplyError::Malformed);
}

#[test]
fn upserted_edge_reads_back_as_one_exact_row() {
    // The service answers an edge upsert and the matching single-pair score
    // query with exactly one row carrying the pair and its weight; decoding
    // such a reply yields those values unchanged.
    let reply = rmp_serde::to_vec(&vec![("U1".to_string(), "U2".to_string(), 1.0f64)]).unwrap();
    let decoded = decode_score_table(&reply).unwrap();
    assert_eq!(decoded.len(), 1);
    assert_eq!(decoded[0].ego, b"U1".to_vec());
    assert_eq!(decoded[0].target, b"U2".to_vec());
    assert_eq!(decoded[0].score_bits, 1.0f64.to_bits());
}

#[test]
fn very_long_string_in_a_row_decodes() {
    let huge = "h".repeat(70000);
    let rows = vec![(huge.clone(), "t".to_string(), 1.0f64)];
    let bytes = rmp_serde::to_vec(&rows).unwrap();
    let decoded = decode_score_table(&bytes).unwrap();
    assert_eq!(decoded[0].ego, huge.into_bytes());
}

#[test]
fn very_large_ack_table_decodes() {
    let rows: Vec<()> = vec![(); 70000];
    let bytes = rmp_serde::to_vec(&rows).unwrap();
    assert_eq!(decode_ack_table(&bytes).unwrap(), 70000);
}
