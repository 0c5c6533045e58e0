use rpc_dispatch::codec::{decode, encode};

#[test]
fn encode_gives_padded_standard_text() {
    assert_eq!(encode(&vec![]), Some(String::new()));
    assert_eq!(encode(&vec![0x01]), Some("AQ==".to_string()));
    assert_eq!(encode(&vec![0x01, 0x02]), Some("AQI=".to_string()));
    assert_eq!(encode(&vec![0x01, 0x02, 0x03]), Some("AQID".to_string()));
    assert_eq!(encode(&vec![0xfb, 0xff]), Some("+/8=".to_string()));
}

#[test]
fn decode_gives_the_bytes_back() {
    assert_eq!(decode(""), Some(vec![]));
    assert_eq!(decode("AQI="), Some(vec![0x01, 0x02]));
    assert_eq!(decode("aGVsbG8gd29ybGQ="), Some(b"hello world".to_vec()));
}

#[test]
fn decode_refuses_what_is_not_base64() {
    assert_eq!(decode("not base64!"), None);
    assert_eq!(decode("A"), None);
    assert_eq!(decode("AQI=="), None);
    assert_eq!(decode("AQI=\n"), None);
    assert_eq!(decode("-_8="), None);
}

#[test]
fn decode_does_not_insist_on_padding() {
    assert_eq!(decode("AQI"), Some(vec![0x01, 0x02]));
    assert_eq!(decode("AQ"), Some(vec![0x01]));
}

#[test]
fn decode_undoes_encode() {
    let bytes: Vec<u8> = (0u8..=255).collect();
    let text = encode(&bytes).unwrap();
    assert_ne!(text.as_bytes(), bytes.as_slice());
    assert_eq!(decode(&text), Some(bytes));
}
