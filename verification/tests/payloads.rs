//! Every payload builder must produce exactly the bytes that generic tuple
//! serialization of the corresponding query tuple produces.
use meritrank_client::payload::{
    contexted_payload, mr_connected_payload, mr_delete_edge_payload, mr_delete_node_payload,
    mr_edgelist_payload, mr_for_beacons_global_payload, mr_graph_payload,
    mr_node_score_linear_sum_payload, mr_node_score_payload, mr_node_score_superposition_payload,
    mr_nodelist_payload, mr_nodes_payload, mr_put_edge_payload, mr_score_linear_sum_payload,
    mr_scores_linear_sum_payload, mr_service_payload, mr_zerorec_payload,
};

#[test]
fn ver_payload_matches_reference_encoding() {
    assert_eq!(mr_service_payload(), rmp_serde::to_vec(&"ver").unwrap());
}

#[test]
fn node_score_superposition_matches_reference_encoding() {
    let ours = mr_node_score_superposition_payload(b"U1", b"U2");
    let reference =
        rmp_serde::to_vec(&((("src", "=", "U1"), ("dest", "=", "U2")), ())).unwrap();
    assert_eq!(ours, reference);
}

#[test]
fn node_score_without_context_is_bare() {
    let ours = mr_node_score_payload(b"U1", b"U2", b"");
    let reference =
        rmp_serde::to_vec(&((("src", "=", "U1"), ("dest", "=", "U2")), ())).unwrap();
    assert_eq!(ours, reference);
}

#[test]
fn node_score_with_context_is_wrapped() {
    let ours = mr_node_score_payload(b"U1", b"U2", b"X");
    let inner = rmp_serde::to_vec(&((("src", "=", "U1"), ("dest", "=", "U2")), ())).unwrap();
    let q: (&str, &str, Vec<u8>) = ("context", "X", inner);
    let reference = rmp_serde::to_vec(&q).unwrap();
    assert_eq!(ours, reference);
}

#[test]
fn contexted_payload_matches_reference_encoding() {
    let inner = rmp_serde::to_vec(&("nodes", ())).unwrap();
    let ours = contexted_payload(b"my_ctx", &inner);
    let q: (&str, &str, Vec<u8>) = ("context", "my_ctx", inner);
    assert_eq!(ours, rmp_serde::to_vec(&q).unwrap());
}

#[test]
fn node_score_linear_sum_matches_reference_encoding() {
    let ours = mr_node_score_linear_sum_payload(b"U1", b"U2");
    let reference =
        rmp_serde::to_vec(&((("src", "=", "U1"), ("dest", "=", "U2")), (), "null")).unwrap();
    assert_eq!(ours, reference);
}

#[test]
fn score_linear_sum_matches_reference_encoding() {
    let ours = mr_score_linear_sum_payload(b"A", b"B");
    let reference =
        rmp_serde::to_vec(&((("src", "=", "A"), ("dest", "=", "B")), (), "null")).unwrap();
    assert_eq!(ours, reference);
}

#[test]
fn scores_linear_sum_matches_reference_encoding() {
    let ours = mr_scores_linear_sum_payload(b"U1");
    let reference = rmp_serde::to_vec(&((("src", "=", "U1"),), (), "null")).unwrap();
    assert_eq!(ours, reference);
}

#[test]
fn put_edge_matches_reference_encoding() {
    let ours = mr_put_edge_payload(b"U1", b"U2", 1.25f64.to_bits(), b"");
    let reference = rmp_serde::to_vec(&((("U1", "U2", 1.25f64),), ())).unwrap();
    assert_eq!(ours, reference);
}

#[test]
fn put_edge_with_context_matches_reference_encoding() {
    let ours = mr_put_edge_payload(b"U1", b"U2", (-2.5f64).to_bits(), b"X");
    let inner = rmp_serde::to_vec(&((("U1", "U2", -2.5f64),), ())).unwrap();
    let q: (&str, &str, Vec<u8>) = ("context", "X", inner);
    assert_eq!(ours, rmp_serde::to_vec(&q).unwrap());
}

#[test]
fn delete_edge_matches_reference_encoding() {
    let ours = mr_delete_edge_payload(b"U1", b"U2", b"");
    let reference =
        rmp_serde::to_vec(&((("src", "delete", "U1"), ("dest", "delete", "U2")), ())).unwrap();
    assert_eq!(ours, reference);
}

#[test]
fn delete_edge_with_context_matches_reference_encoding() {
    let ours = mr_delete_edge_payload(b"U1", b"U2", b"Y");
    let inner =
        rmp_serde::to_vec(&((("src", "delete", "U1"), ("dest", "delete", "U2")), ())).unwrap();
    let q: (&str, &str, Vec<u8>) = ("context", "Y", inner);
    assert_eq!(ours, rmp_serde::to_vec(&q).unwrap());
}

#[test]
fn delete_node_matches_reference_encoding() {
    let ours = mr_delete_node_payload(b"U1", b"");
    let reference = rmp_serde::to_vec(&((("src", "delete", "U1"),), ())).unwrap();
    assert_eq!(ours, reference);
}

#[test]
fn graph_matches_reference_encoding() {
    let ours = mr_graph_payload(b"U1", b"U2", b"", true, Some(10));
    let reference =
        rmp_serde::to_vec(&((("U1", "gravity", "U2"), true, Some(10i32)), ())).unwrap();
    assert_eq!(ours, reference);
}

#[test]
fn graph_with_context_matches_reference_encoding() {
    let ours = mr_graph_payload(b"U1", b"U2", b"Z", false, None);
    let inner =
        rmp_serde::to_vec(&((("U1", "gravity", "U2"), false, None::<i32>), ())).unwrap();
    let q: (&str, &str, Vec<u8>) = ("context", "Z", inner);
    assert_eq!(ours, rmp_serde::to_vec(&q).unwrap());
}

#[test]
fn nodes_matches_reference_encoding() {
    let ours = mr_nodes_payload(b"U1", b"U2", b"", false, Some(3));
    let reference =
        rmp_serde::to_vec(&((("U1", "gravity_nodes", "U2"), false, Some(3i32)), ())).unwrap();
    assert_eq!(ours, reference);
}

#[test]
fn limit_covers_every_integer_width() {
    for limit in [
        None,
        Some(0),
        Some(1),
        Some(127),
        Some(128),
        Some(255),
        Some(256),
        Some(65535),
        Some(65536),
        Some(2147483647),
        Some(-1),
        Some(-32),
        Some(-33),
        Some(-128),
        Some(-129),
        Some(-32768),
        Some(-32769),
        Some(-2147483648),
    ] {
        let ours = mr_graph_payload(b"e", b"f", b"", true, limit);
        let reference =
            rmp_serde::to_vec(&((("e", "gravity", "f"), true, limit), ())).unwrap();
        assert_eq!(ours, reference, "limit {:?}", limit);
    }
}

#[test]
fn for_beacons_global_matches_reference_encoding() {
    let ours = mr_for_beacons_global_payload();
    assert_eq!(ours, rmp_serde::to_vec(&("for_beacons_global", ())).unwrap());
}

#[test]
fn nodelist_matches_reference_encoding() {
    assert_eq!(mr_nodelist_payload(b""), rmp_serde::to_vec(&("nodes", ())).unwrap());
}

#[test]
fn nodelist_with_context_matches_reference_encoding() {
    let inner = rmp_serde::to_vec(&("nodes", ())).unwrap();
    let q: (&str, &str, Vec<u8>) = ("context", "X", inner);
    assert_eq!(mr_nodelist_payload(b"X"), rmp_serde::to_vec(&q).unwrap());
}

#[test]
fn edgelist_matches_reference_encoding() {
    assert_eq!(mr_edgelist_payload(b""), rmp_serde::to_vec(&("edges", ())).unwrap());
}

#[test]
fn connected_matches_reference_encoding() {
    let ours = mr_connected_payload(b"U1", b"");
    assert_eq!(ours, rmp_serde::to_vec(&((("U1", "connected"),), ())).unwrap());
}

#[test]
fn zerorec_matches_reference_encoding() {
    assert_eq!(mr_zerorec_payload(), rmp_serde::to_vec(&("zerorec", ())).unwrap());
}

#[test]
fn long_identifiers_use_wider_string_headers() {
    let id32 = "a".repeat(32);
    let id300 = "b".repeat(300);
    let id70000 = "c".repeat(70000);
    let ours = mr_node_score_superposition_payload(id32.as_bytes(), id300.as_bytes());
    let reference =
        rmp_serde::to_vec(&((("src", "=", id32.as_str()), ("dest", "=", id300.as_str())), ()))
            .unwrap();
    assert_eq!(ours, reference);
    let ours = mr_delete_node_payload(id70000.as_bytes(), b"");
    let reference = rmp_serde::to_vec(&((("src", "delete", id70000.as_str()),), ())).unwrap();
    assert_eq!(ours, reference);
}

#[test]
fn long_context_names_wrap_like_the_reference() {
    let ctx = "k".repeat(40);
    let ours = mr_edgelist_payload(ctx.as_bytes());
    let inner = rmp_serde::to_vec(&("edges", ())).unwrap();
    let q: (&str, &str, Vec<u8>) = ("context", ctx.as_str(), inner);
    assert_eq!(ours, rmp_serde::to_vec(&q).unwrap());
}
