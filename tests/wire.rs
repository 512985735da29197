use cornea::wire::{
    decode_frame, encode_frame, parse_decimal, parse_formats, parse_numbered, push_decimal,
    supports_iris_json, trim_trailing_commas, words_of, FrameError,
};

#[test]
fn decimal_round_trip() {
    let mut out = Vec::new();
    push_decimal(0, &mut out);
    assert_eq!(out, b"0".to_vec());
    let mut out = Vec::new();
    push_decimal(18446744073709551615, &mut out);
    assert_eq!(out, b"18446744073709551615".to_vec());
    assert_eq!(parse_decimal(b"18446744073709551615"), Some(u64::MAX));
    assert_eq!(parse_decimal(b"18446744073709551616"), None);
    assert_eq!(parse_decimal(b"007"), Some(7));
    assert_eq!(parse_decimal(b""), None);
    assert_eq!(parse_decimal(b"1a"), None);
}

#[test]
fn frame_encodes_length_and_payload() {
    let f = encode_frame(br#"{"id":1}"#);
    assert_eq!(f, b"IrisJson:8:{\"id\":1}\n".to_vec());
    let empty = encode_frame(b"");
    assert_eq!(empty, b"IrisJson:0:\n".to_vec());
}

#[test]
fn frame_decodes_payload() {
    assert_eq!(decode_frame(b"IrisJson:8:{\"id\":1}"), Ok(b"{\"id\":1}".to_vec()));
    // the payload may itself hold colons
    assert_eq!(decode_frame(b"IrisJson:3:a:b"), Ok(b"a:b".to_vec()));
    assert_eq!(decode_frame(b"IrisJson:0:"), Ok(Vec::new()));
}

#[test]
fn frame_errors() {
    assert_eq!(decode_frame(b"CONNECT / IrisRpc/1.0"), Err(FrameError::NotFramed));
    assert_eq!(decode_frame(b"IrisJso"), Err(FrameError::NotFramed));
    assert_eq!(decode_frame(b"IrisJson:12"), Err(FrameError::MissingPayload));
    assert_eq!(decode_frame(b"IrisJson:x:{}"), Err(FrameError::BadLength));
    assert_eq!(decode_frame(b"IrisJson::{}"), Err(FrameError::BadLength));
    assert_eq!(decode_frame(b"IrisJson:5:{}"), Err(FrameError::LengthMismatch));
}

#[test]
fn frame_round_trip_through_line() {
    let payload = br#"{"jsonrpc":"2.0","method":"m","params":{},"id":4294967296}"#;
    let mut line = encode_frame(payload);
    assert_eq!(line.pop(), Some(b'\n'));
    assert_eq!(decode_frame(&line), Ok(payload.to_vec()));
}

#[test]
fn handshake_lists_formats() {
    let f = parse_formats(b"Supported-Formats: IrisJson, OtherFmt").unwrap();
    assert_eq!(f, vec![b"IrisJson".to_vec(), b"OtherFmt".to_vec()]);
    assert!(supports_iris_json(&f));
    let g = parse_formats(b"Supported-Formats: Other,,  \tBin").unwrap();
    assert_eq!(g, vec![b"Other".to_vec(), b"Bin".to_vec()]);
    assert!(!supports_iris_json(&g));
    assert_eq!(parse_formats(b"CONNECT / IrisRpc/1.0"), None);
    assert_eq!(parse_formats(b"Supported-Formats: "), Some(vec![]));
}

#[test]
fn words_and_commas() {
    assert_eq!(words_of(b"  a bb\r\nc "), vec![b"a".to_vec(), b"bb".to_vec(), b"c".to_vec()]);
    assert_eq!(trim_trailing_commas(b"x,,"), b"x".to_vec());
    assert_eq!(trim_trailing_commas(b",x"), b",x".to_vec());
    assert_eq!(trim_trailing_commas(b",,"), Vec::<u8>::new());
}

#[test]
fn numbered_names() {
    assert_eq!(parse_numbered(b"X30", b'X', 30), Some(30));
    assert_eq!(parse_numbered(b"X31", b'X', 30), None);
    assert_eq!(parse_numbered(b"X07", b'X', 30), None);
    assert_eq!(parse_numbered(b"X0", b'X', 30), Some(0));
    assert_eq!(parse_numbered(b"R15", b'R', 15), Some(15));
    assert_eq!(parse_numbered(b"X", b'X', 30), None);
}
