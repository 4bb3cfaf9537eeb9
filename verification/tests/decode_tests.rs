use haystack_ui::decode::{
    decode_base64, decode_base64_bytes, decode_binary_plist_preview, decode_embedded_preview,
    decode_hex, preview,
};

#[test]
fn binary_plist_preview_decodes_transport_only_after_explicit_action() {
    let preview = decode_embedded_preview("binary-plist", "62706c6973743030deadbeef").unwrap();
    assert!(preview.contains("Magic: bplist00"));
    assert!(preview.contains("Transport: hex"));
    assert!(preview.contains("Decoded bytes: 12"));
}

#[test]
fn binary_plist_transports_and_errors() {
    let literal = decode_binary_plist_preview("bplist00xyz").unwrap();
    assert!(literal.contains("Transport: literal"));
    assert!(literal.contains("Decoded bytes: 11"));
    // "bplist00" in base64.
    let base64 = decode_binary_plist_preview("YnBsaXN0MDA=").unwrap();
    assert!(base64.contains("Transport: base64"));
    assert!(base64.contains("Decoded bytes: 8"));
    assert_eq!(decode_binary_plist_preview("aGVsbG8="), Err("binary plist magic is missing"));
    assert_eq!(decode_binary_plist_preview("not base64!"), Err("invalid base64"));
}

#[test]
fn base64_decodes_standard_and_url_alphabets() {
    assert_eq!(decode_base64_bytes("aGVsbG8=", false), Ok(b"hello".to_vec()));
    assert_eq!(decode_base64_bytes("-_8", true), Ok(vec![0xfb, 0xff]));
    assert_eq!(decode_base64_bytes("+/8", false), Ok(vec![0xfb, 0xff]));
    assert_eq!(decode_base64_bytes("-_8", false), Err("invalid base64"));
    assert_eq!(decode_base64_bytes("", false), Ok(vec![]));
    assert_eq!(decode_base64_bytes("QQ", false), Ok(vec![b'A']));
    assert_eq!(decode_base64("aGk=", false), Ok("hi".to_string()));
    assert_eq!(decode_base64("/w==", false), Err("decoded data is binary"));
}

#[test]
fn hex_pairs_become_bytes() {
    assert_eq!(decode_hex("00ff7A"), Ok(vec![0, 255, 0x7a]));
    assert_eq!(decode_hex(""), Ok(vec![]));
}

#[test]
fn hex_pairs_that_are_not_numbers_are_refused() {
    assert_eq!(decode_hex("zz00"), Err("invalid hex"));
    assert_eq!(decode_hex("00-f"), Err("invalid hex"));
    assert_eq!(decode_hex("é0"), Err("invalid hex"));
    // A pair may be a sign and one digit, as `u8::from_str_radix` reads it.
    assert_eq!(decode_hex("+f0a"), Ok(vec![15, 10]));
    assert_eq!(decode_hex("++"), Err("invalid hex"));
}

#[test]
fn embedded_preview_picks_the_payload_kind() {
    assert!(decode_embedded_preview("pem", "  -----BEGIN CERTIFICATE-----\nabc")
        .unwrap()
        .starts_with("PEM envelope detected."));
    // A JWT's payload: {"sub":"1"}
    assert_eq!(
        decode_embedded_preview("jwt", "eyJhbGciOiJub25lIn0.eyJzdWIiOiIxIn0.sig"),
        Ok("{\"sub\":\"1\"}".to_string())
    );
    assert_eq!(
        decode_embedded_preview("hex", "0x68656c6c6f20776f726c64"),
        Ok("hello world".to_string())
    );
    assert_eq!(
        decode_embedded_preview("base64", " aGVsbG8gd29ybGQ= "),
        Ok("hello world".to_string())
    );
    assert_eq!(decode_embedded_preview("base64", "a.b"), Err("invalid base64"));
}

#[test]
fn long_values_are_previewed_at_a_character_boundary() {
    let short = "short value";
    assert_eq!(preview(short), short);
    let long = format!("{}é tail", "a".repeat(239));
    let shown = preview(&long);
    assert_eq!(shown, format!("{}…", "a".repeat(239)));
    let exact = "b".repeat(240);
    assert_eq!(preview(&exact), exact);
}
