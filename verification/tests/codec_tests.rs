use cosmiqnotz::codec::{decode_pending, encode_pending};

#[test]
fn encode_produces_the_documented_form() {
    let keys = vec!["note_1".to_string(), "note_draft_42".to_string()];
    let s = encode_pending(&keys);
    assert_eq!(s, "[\"note_1\",\"note_draft_42\"]");
}

#[test]
fn encode_of_empty_list() {
    let keys: Vec<String> = vec![];
    assert_eq!(encode_pending(&keys), "[]");
}

#[test]
fn round_trip_reproduces_the_same_ordered_keys() {
    let keys = vec![
        "note_1".to_string(),
        "note_draft_1700000000000".to_string(),
        "note_zz".to_string(),
    ];
    let s = encode_pending(&keys);
    let back = decode_pending(s.as_str()).expect("decode must succeed on an encoding");
    assert_eq!(back, keys);
}

#[test]
fn round_trip_survives_quotes_and_backslashes() {
    let keys = vec!["odd\"key".to_string(), "back\\slash".to_string(), "".to_string()];
    let s = encode_pending(&keys);
    let back = decode_pending(s.as_str()).expect("decode must succeed on an encoding");
    assert_eq!(back, keys);
}

#[test]
fn round_trip_of_empty_list() {
    let keys: Vec<String> = vec![];
    let s = encode_pending(&keys);
    assert_eq!(decode_pending(s.as_str()), Some(vec![]));
}

#[test]
fn decode_rejects_malformed_input() {
    assert_eq!(decode_pending(""), None);
    assert_eq!(decode_pending("notalist"), None);
    assert_eq!(decode_pending("[\"unterminated"), None);
    assert_eq!(decode_pending("[\"a\",]"), None);
    assert_eq!(decode_pending("[\"a\"]trailing"), None);
}
