use clojure_rs::codec::{encode_dict, skip_value};
use clojure_rs::protocol::{decode_request, interpret, Request, RequestError, Response};

fn clone_id(bytes: &[u8]) -> String {
    match decode_request(bytes) {
        Ok(Request::Clone(id)) => id,
        other => panic!("expected a clone request, got {:?}", other),
    }
}

#[test]
fn decodes_clone_request() {
    assert_eq!(clone_id(b"d2:op5:clone2:id3:abce"), "abc");
}

#[test]
fn extra_keys_are_ignored() {
    assert_eq!(clone_id(b"d2:id1:x2:op5:clone7:session1:ye"), "x");
}

#[test]
fn missing_op_is_noop() {
    assert!(matches!(decode_request(b"d2:id3:abce"), Err(RequestError::Noop)));
    assert!(matches!(decode_request(b"de"), Err(RequestError::Noop)));
}

#[test]
fn bogus_op_is_unknown() {
    assert!(matches!(decode_request(b"d2:op5:boguse"), Err(RequestError::UnknownOp)));
}

#[test]
fn eval_without_id_is_unknown() {
    assert!(matches!(decode_request(b"d2:op4:evale"), Err(RequestError::UnknownOp)));
}

#[test]
fn clone_without_id_is_key_not_found() {
    match decode_request(b"d2:op5:clonee") {
        Err(RequestError::KeyNotFound(k)) => assert_eq!(k, "id"),
        other => panic!("unexpected {:?}", other),
    }
}

#[test]
fn non_dictionary_is_unexpected_object() {
    assert!(matches!(decode_request(b"i42e"), Err(RequestError::UnexpectedObject)));
    assert!(matches!(decode_request(b"3:abc"), Err(RequestError::UnexpectedObject)));
    assert!(matches!(decode_request(b"l2:ope"), Err(RequestError::UnexpectedObject)));
}

#[test]
fn malformed_bencode_is_decode_error() {
    assert!(matches!(decode_request(b"d2:op"), Err(RequestError::DError)));
    assert!(matches!(decode_request(b"x"), Err(RequestError::DError)));
}

#[test]
fn non_string_value_fails_to_read() {
    assert!(matches!(decode_request(b"d2:opi1ee"), Err(RequestError::FailedToReadValue)));
    assert!(matches!(decode_request(b"d2:opl5:cloneee"), Err(RequestError::FailedToReadValue)));
}

#[test]
fn invalid_utf8_is_refused() {
    let mut b = b"d2:op2:".to_vec();
    b.extend_from_slice(&[0xff, 0xfe]);
    b.push(b'e');
    assert!(matches!(decode_request(&b), Err(RequestError::InvalidUtf8)));
}

#[test]
fn interpret_last_duplicate_wins() {
    let d = vec![
        (b"op".to_vec(), b"bogus".to_vec()),
        (b"id".to_vec(), b"a".to_vec()),
        (b"op".to_vec(), b"clone".to_vec()),
    ];
    match interpret(&d) {
        Ok(Request::Clone(id)) => assert_eq!(id, "a"),
        other => panic!("unexpected {:?}", other),
    }
}

#[test]
fn encode_cloned_response() {
    let r = Response::Cloned {
        id: String::from("abc"),
        new_session: String::from("12345678-abcd-4ef0-9123-456789abcdef"),
        status: String::from("done"),
    };
    assert_eq!(
        r.encode(),
        b"d2:id3:abc11:new-session36:12345678-abcd-4ef0-9123-456789abcdef6:status4:donee".to_vec()
    );
}

#[test]
fn encode_dict_lengths_in_decimal() {
    let long = vec![b'z'; 12];
    let d = vec![(b"k".to_vec(), long), (Vec::new(), b"v".to_vec())];
    let mut expected = b"d1:k12:".to_vec();
    expected.extend_from_slice(&[b'z'; 12]);
    expected.extend_from_slice(b"0:1:ve");
    assert_eq!(encode_dict(&d), expected);
    assert_eq!(encode_dict(&Vec::new()), b"de".to_vec());
}

fn decode_with_bendy(bytes: &[u8]) -> Vec<(Vec<u8>, Vec<u8>)> {
    let mut dec = bendy::decoding::Decoder::new(bytes);
    let mut out = Vec::new();
    match dec.next_object().unwrap().unwrap() {
        bendy::decoding::Object::Dict(mut d) => {
            while let Some((k, v)) = d.next_pair().unwrap() {
                match v {
                    bendy::decoding::Object::Bytes(b) => out.push((k.to_vec(), b.to_vec())),
                    _ => panic!("value is not a byte string"),
                }
            }
        }
        _ => panic!("not a dictionary"),
    }
    out
}

#[test]
fn cloned_response_round_trips() {
    let r = Response::Cloned {
        id: String::from("sess-é"),
        new_session: String::from("00000000-0000-4000-8000-000000000000"),
        status: String::from("done"),
    };
    let first = r.encode();
    let pairs = decode_with_bendy(&first);
    assert_eq!(pairs.len(), 3);
    assert_eq!(encode_dict(&pairs), first);
}

#[test]
fn rejections_are_encoded() {
    assert_eq!(
        RequestError::UnknownOp.encode(),
        b"d5:error17:unknown-operation6:status5:errore".to_vec()
    );
    assert_eq!(
        RequestError::KeyNotFound(String::from("id")).encode(),
        b"d5:error22:missing-required-field5:field2:id6:status5:errore".to_vec()
    );
    assert_eq!(RequestError::DError.name(), "decode-error");
    assert_eq!(RequestError::UnexpectedObject.name(), "unexpected-top-level-shape");
    assert_eq!(RequestError::FailedToReadValue.name(), "non-string-value");
    assert_eq!(RequestError::InvalidUtf8.name(), "invalid-utf8");
    assert_eq!(RequestError::Noop.name(), "missing-operation");
}

#[test]
fn broken_framing_is_decode_error() {
    assert!(matches!(decode_request(b"5:ab"), Err(RequestError::DError)));
    assert!(matches!(decode_request(b"i42"), Err(RequestError::DError)));
    assert!(matches!(decode_request(b"l"), Err(RequestError::DError)));
    assert!(matches!(decode_request(b"ie"), Err(RequestError::DError)));
    assert!(matches!(decode_request(b"d2:opi"), Err(RequestError::DError)));
    assert!(matches!(decode_request(b"d2:opd1:ai1ee"), Err(RequestError::DError)));
    assert!(matches!(decode_request(b"d2:opdi1e1:aee"), Err(RequestError::DError)));
}

#[test]
fn well_formed_non_strings_are_classified() {
    assert!(matches!(decode_request(b"i-42e"), Err(RequestError::UnexpectedObject)));
    assert!(matches!(decode_request(b"lli1eed1:a0:ee"), Err(RequestError::UnexpectedObject)));
    assert!(matches!(decode_request(b"d2:opd1:ai1eee"), Err(RequestError::FailedToReadValue)));
    assert!(matches!(
        decode_request(b"d2:op5:clone2:idi-3ee"),
        Err(RequestError::FailedToReadValue)
    ));
    assert!(matches!(
        decode_request(b"d1:ali1ee2:op5:clone2:id1:ze"),
        Err(RequestError::FailedToReadValue)
    ));
}

#[test]
fn skip_value_finds_the_end() {
    let b = b"li1e3:abcd1:xleeeXYZ";
    assert_eq!(skip_value(b, 0), Some(b.len() - 3));
    assert_eq!(skip_value(b"4:spam", 0), Some(6));
    assert_eq!(skip_value(b"xi7e", 1), Some(4));
    assert_eq!(skip_value(b"d1:ae", 0), None);
    assert_eq!(skip_value(b"e", 0), None);
}
