use hardlight::handshake::protocol_label;
use hardlight::handshake::sub_label_matches;

#[test]
fn label_is_hl_slash_major() {
    assert_eq!(protocol_label(0), b"hl/0".to_vec());
    assert_eq!(protocol_label(1), b"hl/1".to_vec());
    assert_eq!(protocol_label(10), b"hl/10".to_vec());
    assert_eq!(protocol_label(427), b"hl/427".to_vec());
}

#[test]
fn matching_sub_label_passes_the_gate() {
    let own = protocol_label(1);
    let offered = protocol_label(1);
    assert!(sub_label_matches(Some(&offered), &own));
}

#[test]
fn version_mismatch_fails_the_gate() {
    // a client presenting hl/2 against a server built at major 1
    let server_label = protocol_label(1);
    let client_label = protocol_label(2);
    assert!(!sub_label_matches(Some(&client_label), &server_label));
    // and the echo check on the client side refuses likewise
    assert!(!sub_label_matches(Some(&server_label), &client_label));
}

#[test]
fn absent_sub_label_fails_the_gate() {
    let own = protocol_label(1);
    assert!(!sub_label_matches(None, &own));
}

#[test]
fn unrelated_header_fails_the_gate() {
    let own = protocol_label(1);
    assert!(!sub_label_matches(Some(&b"chat".to_vec()), &own));
    assert!(!sub_label_matches(Some(&b"hl/".to_vec()), &own));
    assert!(!sub_label_matches(Some(&b"hl/11".to_vec()), &own));
}
