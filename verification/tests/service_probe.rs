//! The version probe never fails: every outcome becomes a plain string.
use meritrank_client::service::mr_service_result;

#[test]
fn successful_probe_yields_the_version() {
    let reply = rmp_serde::to_vec(&"1.2.3").unwrap();
    assert_eq!(mr_service_result(Ok(reply)), b"1.2.3".to_vec());
}

#[test]
fn transport_failure_yields_its_message() {
    let outcome: Result<Vec<u8>, Vec<u8>> = Err(b"connection refused".to_vec());
    assert_eq!(mr_service_result(outcome), b"connection refused".to_vec());
}

#[test]
fn undecodable_reply_yields_the_fixed_note() {
    let outcome: Result<Vec<u8>, Vec<u8>> = Ok(vec![0xc1, 0x99]);
    assert_eq!(mr_service_result(outcome), b"invalid reply from service".to_vec());
}

#[test]
fn empty_reply_yields_the_fixed_note() {
    let outcome: Result<Vec<u8>, Vec<u8>> = Ok(Vec::new());
    assert_eq!(mr_service_result(outcome), b"invalid reply from service".to_vec());
}

#[test]
fn non_string_reply_yields_the_fixed_note() {
    let rows = vec![("U1".to_string(), "U2".to_string(), 1.0f64)];
    let outcome: Result<Vec<u8>, Vec<u8>> = Ok(rmp_serde::to_vec(&rows).unwrap());
    assert_eq!(mr_service_result(outcome), b"invalid reply from service".to_vec());
}
