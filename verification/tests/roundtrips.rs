//! Encode-then-decode of every result-row shape reproduces the original
//! values exactly, and our encodings agree with the reference library in
//! both directions.
use meritrank_client::rows::{
    decode_ack_table, decode_connection_table, decode_id_table, decode_node_weight_table,
    decode_score_table, encode_ack_table, encode_connection_table, encode_id_table,
    encode_node_weight_table, encode_score_table, ConnectionRow, NodeWeightRow, ScoreRow,
};

#[test]
fn score_table_roundtrip_is_exact() {
    let rows = vec![
        ScoreRow { ego: b"U1".to_vec(), target: b"U2".to_vec(), score_bits: 1.0f64.to_bits() },
        ScoreRow {
            ego: b"U3".to_vec(),
            target: b"B1".to_vec(),
            score_bits: (-7.125f64).to_bits(),
        },
        ScoreRow { ego: Vec::new(), target: b"x".to_vec(), score_bits: f64::NAN.to_bits() },
    ];
    let bytes = encode_score_table(&rows);
    assert_eq!(decode_score_table(&bytes).unwrap(), rows);
}

#[test]
fn score_table_encoding_matches_reference_decoder() {
    let rows = vec![ScoreRow {
        ego: b"U1".to_vec(),
        target: b"U2".to_vec(),
        score_bits: 2.75f64.to_bits(),
    }];
    let bytes = encode_score_table(&rows);
    let reference: Vec<(String, String, f64)> = rmp_serde::from_slice(&bytes).unwrap();
    assert_eq!(reference, vec![("U1".to_string(), "U2".to_string(), 2.75f64)]);
}

#[test]
fn large_score_table_roundtrip_is_exact() {
    let mut rows = Vec::new();
    for i in 0..64 {
        rows.push(ScoreRow {
            ego: format!("U{}", i).into_bytes(),
            target: format!("B{}", i).into_bytes(),
            score_bits: ((i as f64) * 0.1).to_bits(),
        });
    }
    let bytes = encode_score_table(&rows);
    assert_eq!(decode_score_table(&bytes).unwrap(), rows);
}

#[test]
fn node_weight_table_roundtrip_is_exact() {
    let rows = vec![
        NodeWeightRow { node: b"N1".to_vec(), weight_bits: 0.0f64.to_bits() },
        NodeWeightRow { node: b"N2".to_vec(), weight_bits: (-0.0f64).to_bits() },
        NodeWeightRow { node: b"N3".to_vec(), weight_bits: f64::MAX.to_bits() },
    ];
    let bytes = encode_node_weight_table(&rows);
    assert_eq!(decode_node_weight_table(&bytes).unwrap(), rows);
}

#[test]
fn node_weight_encoding_matches_reference_decoder() {
    let rows = vec![NodeWeightRow { node: b"N9".to_vec(), weight_bits: 4.5f64.to_bits() }];
    let bytes = encode_node_weight_table(&rows);
    let reference: Vec<(String, f64)> = rmp_serde::from_slice(&bytes).unwrap();
    assert_eq!(reference, vec![("N9".to_string(), 4.5f64)]);
}

#[test]
fn id_table_roundtrip_is_exact() {
    let rows = vec![b"U1".to_vec(), Vec::new(), "z".repeat(300).into_bytes()];
    let bytes = encode_id_table(&rows);
    assert_eq!(decode_id_table(&bytes).unwrap(), rows);
}

#[test]
fn id_table_encoding_matches_reference_decoder() {
    let rows = vec![b"U7".to_vec()];
    let bytes = encode_id_table(&rows);
    let reference: Vec<(String,)> = rmp_serde::from_slice(&bytes).unwrap();
    assert_eq!(reference, vec![("U7".to_string(),)]);
}

#[test]
fn connection_table_roundtrip_is_exact() {
    let rows = vec![
        ConnectionRow { source: b"U1".to_vec(), target: b"U2".to_vec() },
        ConnectionRow { source: b"U2".to_vec(), target: b"U1".to_vec() },
    ];
    let bytes = encode_connection_table(&rows);
    assert_eq!(decode_connection_table(&bytes).unwrap(), rows);
}

#[test]
fn connection_encoding_matches_reference_decoder() {
    let rows = vec![ConnectionRow { source: b"A".to_vec(), target: b"B".to_vec() }];
    let bytes = encode_connection_table(&rows);
    let reference: Vec<(String, String)> = rmp_serde::from_slice(&bytes).unwrap();
    assert_eq!(reference, vec![("A".to_string(), "B".to_string())]);
}

#[test]
fn ack_table_roundtrip_is_exact() {
    for n in [0usize, 1, 15, 16, 40] {
        let bytes = encode_ack_table(n);
        assert_eq!(decode_ack_table(&bytes).unwrap(), n);
    }
}

#[test]
fn ack_encoding_matches_reference_decoder() {
    let bytes = encode_ack_table(2);
    let reference: Vec<()> = rmp_serde::from_slice(&bytes).unwrap();
    assert_eq!(reference.len(), 2);
}

#[test]
fn very_large_ack_table_roundtrip_is_exact() {
    let bytes = encode_ack_table(70000);
    assert_eq!(decode_ack_table(&bytes).unwrap(), 70000);
    let reference: Vec<()> = rmp_serde::from_slice(&bytes).unwrap();
    assert_eq!(reference.len(), 70000);
}
