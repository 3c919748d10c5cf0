use bittorrent::bencode::{decode_bencoded_value, decode_exact, BencodeError, BencodeValue};

fn bytes(s: &str) -> Vec<u8> {
    s.as_bytes().to_vec()
}

#[test]
fn decodes_integer() {
    let (v, end) = decode_bencoded_value(&bytes("i-42e")).unwrap();
    assert_eq!(v, BencodeValue::Integer(-42));
    assert_eq!(end, 5);
}

#[test]
fn decodes_string_and_reports_rest() {
    let (v, end) = decode_bencoded_value(&bytes("4:spamxyz")).unwrap();
    assert_eq!(v, BencodeValue::ByteString(bytes("spam")));
    assert_eq!(end, 6);
}

#[test]
fn decodes_list_and_dictionary() {
    let (v, _) = decode_bencoded_value(&bytes("l4:spami42ee")).unwrap();
    assert_eq!(
        v,
        BencodeValue::List(vec![BencodeValue::ByteString(bytes("spam")), BencodeValue::Integer(42)])
    );
    let (d, _) = decode_bencoded_value(&bytes("d3:cow3:moo4:spam4:eggse")).unwrap();
    assert_eq!(
        d,
        BencodeValue::Dictionary(vec![
            (bytes("cow"), BencodeValue::ByteString(bytes("moo"))),
            (bytes("spam"), BencodeValue::ByteString(bytes("eggs"))),
        ])
    );
}

#[test]
fn dictionary_keeps_given_order_on_encode() {
    let d = BencodeValue::Dictionary(vec![
        (bytes("zeta"), BencodeValue::Integer(1)),
        (bytes("alpha"), BencodeValue::Integer(2)),
    ]);
    assert_eq!(d.encode(), bytes("d4:zetai1e5:alphai2ee"));
}

#[test]
fn encodes_exact_bytes() {
    assert_eq!(BencodeValue::Integer(-5).encode(), bytes("i-5e"));
    assert_eq!(BencodeValue::Integer(0).encode(), bytes("i0e"));
    assert_eq!(BencodeValue::ByteString(vec![]).encode(), bytes("0:"));
    assert_eq!(BencodeValue::List(vec![]).encode(), bytes("le"));
}

#[test]
fn round_trip_nested_value() {
    let v = BencodeValue::Dictionary(vec![
        (bytes("list"), BencodeValue::List(vec![
            BencodeValue::Integer(i64::MIN),
            BencodeValue::Integer(i64::MAX),
            BencodeValue::ByteString(vec![0, 255, 58, 101]),
            BencodeValue::Dictionary(vec![]),
        ])),
        (bytes(""), BencodeValue::ByteString(bytes("x"))),
    ]);
    let enc = v.encode();
    let (back, end) = decode_bencoded_value(&enc).unwrap();
    assert_eq!(back, v);
    assert_eq!(end, enc.len());
}

#[test]
fn rejects_string_longer_than_input() {
    assert_eq!(decode_bencoded_value(&bytes("5:abc")), Err(BencodeError::MalformedEncoding));
}

#[test]
fn rejects_non_string_key() {
    assert_eq!(decode_bencoded_value(&bytes("di1e3:fooe")), Err(BencodeError::MalformedEncoding));
}

#[test]
fn rejects_unterminated_containers() {
    assert_eq!(decode_bencoded_value(&bytes("l4:spam")), Err(BencodeError::MalformedEncoding));
    assert_eq!(decode_bencoded_value(&bytes("d3:cow3:moo")), Err(BencodeError::MalformedEncoding));
}

#[test]
fn rejects_bad_integers() {
    assert_eq!(decode_bencoded_value(&bytes("i12x")), Err(BencodeError::MalformedEncoding));
    assert_eq!(decode_bencoded_value(&bytes("ie")), Err(BencodeError::MalformedEncoding));
    assert_eq!(
        decode_bencoded_value(&bytes("i9223372036854775808e")),
        Err(BencodeError::MalformedEncoding)
    );
    assert_eq!(
        decode_bencoded_value(&bytes("i-9223372036854775808e")).unwrap().0,
        BencodeValue::Integer(i64::MIN)
    );
}

#[test]
fn decode_exact_refuses_trailing_bytes() {
    assert_eq!(decode_exact(&bytes("i1ei2e")), Err(BencodeError::MalformedEncoding));
    assert_eq!(decode_exact(&bytes("i1e")), Ok(BencodeValue::Integer(1)));
}
