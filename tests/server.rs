use clojure_rs::protocol::{Request, RequestError, Response};
use clojure_rs::server::{Server, Step, READ_BUFFER_SIZE};
use clojure_rs::uuid::{random_uuid, uuid_from_draws};

fn is_v4(s: &str) -> bool {
    let b = s.as_bytes();
    if b.len() != 36 {
        return false;
    }
    for (i, c) in b.iter().enumerate() {
        let ok = match i {
            8 | 13 | 18 | 23 => *c == b'-',
            14 => *c == b'4',
            19 => matches!(*c, b'8' | b'9' | b'a' | b'b'),
            _ => c.is_ascii_digit() || (b'a'..=b'f').contains(c),
        };
        if !ok {
            return false;
        }
    }
    true
}

#[test]
fn uuid_from_draws_exact() {
    assert_eq!(
        uuid_from_draws(0x1234_5678, 0xabcd, 0xef0, 5, 0x123, 0x4567_89ab_cdef),
        "12345678-abcd-4ef0-9123-456789abcdef"
    );
    assert_eq!(uuid_from_draws(0, 0, 0, 0, 0, 0), "00000000-0000-4000-8000-000000000000");
    assert_eq!(
        uuid_from_draws(0xffff_ffff, 0xffff, 0xfff, 15, 0xfff, 0xffff_ffff_ffff),
        "ffffffff-ffff-4fff-bfff-ffffffffffff"
    );
    assert_eq!(uuid_from_draws(1, 2, 3, 2, 4, 5), "00000001-0002-4003-a004-000000000005");
}

#[test]
fn random_uuid_is_v4() {
    for _ in 0..50 {
        let u = random_uuid();
        assert!(is_v4(&u), "{}", u);
    }
}

#[test]
fn clone_returns_cloned_with_v4_session() {
    let mut s = Server::new();
    match s.run_request(Request::Clone(String::from("X"))) {
        Ok(Response::Cloned { id, new_session, status }) => {
            assert_eq!(id, "X");
            assert!(is_v4(&new_session));
            assert_eq!(status, "done");
        }
        other => panic!("unexpected {:?}", other),
    }
    assert!(s.contains(&String::from("X")));
    assert_eq!(s.len(), 1);
}

#[test]
fn clone_with_given_session() {
    let mut s = Server::new();
    let r = s.run_request_with(Request::Clone(String::from("a")), String::from("n")).unwrap();
    match r {
        Response::Cloned { id, new_session, status } => {
            assert_eq!((id.as_str(), new_session.as_str(), status.as_str()), ("a", "n", "done"));
        }
    }
}

#[test]
fn clone_same_id_twice_keeps_size() {
    let mut s = Server::new();
    s.run_request(Request::Clone(String::from("abc"))).unwrap();
    s.run_request(Request::Clone(String::from("abc"))).unwrap();
    assert_eq!(s.len(), 1);
    s.run_request(Request::Clone(String::from("other"))).unwrap();
    assert_eq!(s.len(), 2);
    assert!(!s.contains(&String::from("missing")));
}

#[test]
fn read_of_clone_replies() {
    let mut s = Server::new();
    match s.handle_read(b"d2:op5:clone2:id3:abce") {
        Step::Reply(bytes) => {
            let prefix = b"d2:id3:abc11:new-session36:";
            let suffix = b"6:status4:donee";
            assert_eq!(bytes.len(), prefix.len() + 36 + suffix.len());
            assert_eq!(&bytes[..prefix.len()], prefix);
            assert_eq!(&bytes[prefix.len() + 36..], suffix);
            let uuid = std::str::from_utf8(&bytes[prefix.len()..prefix.len() + 36]).unwrap();
            assert!(is_v4(uuid));
        }
        other => panic!("unexpected {:?}", other),
    }
    assert!(s.contains(&String::from("abc")));
}

#[test]
fn read_of_eval_is_rejected() {
    let mut s = Server::new();
    match s.handle_read(b"d2:op4:evale") {
        Step::Reject(RequestError::UnknownOp) => {}
        other => panic!("unexpected {:?}", other),
    }
    assert_eq!(s.len(), 0);
}

#[test]
fn empty_read_closes() {
    let mut s = Server::new();
    assert!(matches!(s.handle_read(b""), Step::Close));
}

#[test]
fn full_buffer_read_overflows() {
    let mut s = Server::new();
    let mut big = b"d2:op5:clone2:id".to_vec();
    let id_len = READ_BUFFER_SIZE;
    big.extend_from_slice(format!("{}:", id_len).as_bytes());
    big.extend_from_slice(&vec![b'a'; id_len]);
    big.push(b'e');
    assert!(matches!(s.handle_read(&big[..READ_BUFFER_SIZE]), Step::Overflow));
    assert!(matches!(s.handle_read(&big), Step::Overflow));
    assert_eq!(s.len(), 0);
    let short = vec![b' '; READ_BUFFER_SIZE - 1];
    assert!(matches!(s.handle_read(&short), Step::Reject(RequestError::DError)));
}
