//! Requests, responses and errors of the protocol, and how a decoded
//! dictionary is read as a request.

use crate::codec::{
    as_entries, bencode_dict, bencode_object, decode_object, encode_dict, entry_pairs,
    lemma_decode_encode_dict, pairs_view, raw_object_view, RawObject,
};
use vstd::prelude::*;
use vstd::string::StrSliceExecFns;
use vstd::string::StringExecFns;
use vstd::utf8::{encode_utf8, valid_utf8};

verus! {

/// A request of a client.
#[derive(Debug)]
pub enum Request {
    /// Clone the session with this identifier.
    Clone(String),
}

/// A reply of the server.
#[derive(Debug)]
pub enum Response {
    /// Answer to a clone: the echoed `id`, the freshly made identifier, and the
    /// completion marker `done`.
    Cloned { id: String, new_session: String, status: String },
}

/// Why a request could not be handled.
#[derive(Debug)]
pub enum RequestError {
    /// The bytes are not well-formed bencode.
    DError,
    /// The top-level value is not a dictionary.
    UnexpectedObject,
    /// A dictionary value is not a byte string.
    FailedToReadValue,
    /// A dictionary key or value is not valid UTF-8.
    InvalidUtf8,
    /// The dictionary has no `op` key.
    Noop,
    /// The `op` value names no known operation.
    UnknownOp,
    /// A key that the operation needs is absent; holds its name.
    KeyNotFound(String),
}

/// The bytes of `op`.
pub open spec fn op_key() -> Seq<u8> {
    seq![111u8, 112u8]
}

/// The bytes of `clone`.
pub open spec fn clone_op() -> Seq<u8> {
    seq![99u8, 108u8, 111u8, 110u8, 101u8]
}

/// The bytes of `id`.
pub open spec fn id_key() -> Seq<u8> {
    seq![105u8, 100u8]
}

/// The bytes of `new-session`.
pub open spec fn new_session_key() -> Seq<u8> {
    seq![110u8, 101u8, 119u8, 45u8, 115u8, 101u8, 115u8, 115u8, 105u8, 111u8, 110u8]
}

/// The bytes of `status`.
pub open spec fn status_key() -> Seq<u8> {
    seq![115u8, 116u8, 97u8, 116u8, 117u8, 115u8]
}

/// Relies on `std::str::from_utf8`: `Ok` exactly for valid UTF-8, and then a
/// string whose UTF-8 encoding is the given bytes.
#[verifier::external_body]
fn utf8_string(b: &[u8]) -> (r: Option<String>)
    ensures
        r is Some <==> valid_utf8(b@),
        r matches Some(s) ==> encode_utf8(s@) == b@,
{
    std::str::from_utf8(b).ok().map(|s| s.to_string())
}

/// One decoded pair, checked: both sides must be UTF-8 byte strings.
pub open spec fn check_pair(p: (Seq<u8>, Option<Seq<u8>>)) -> Result<(Seq<u8>, Seq<u8>), RequestError> {
    if !valid_utf8(p.0) {
        Err(RequestError::InvalidUtf8)
    } else {
        match p.1 {
            None => Err(RequestError::FailedToReadValue),
            Some(v) => if valid_utf8(v) {
                Ok((p.0, v))
            } else {
                Err(RequestError::InvalidUtf8)
            },
        }
    }
}

/// All decoded pairs, checked in order: the first failing pair decides the error.
pub open spec fn check_pairs(p: Seq<(Seq<u8>, Option<Seq<u8>>)>) -> Result<Seq<(Seq<u8>, Seq<u8>)>, RequestError>
    decreases p.len(),
{
    if p.len() == 0 {
        Ok(Seq::empty())
    } else {
        match check_pairs(p.drop_last()) {
            Err(e) => Err(e),
            Ok(d) => match check_pair(p.last()) {
                Err(e) => Err(e),
                Ok(kv) => Ok(d.push(kv)),
            },
        }
    }
}

/// The value under `k`; where a key repeats, the last pair wins.
pub open spec fn lookup(d: Seq<(Seq<u8>, Seq<u8>)>, k: Seq<u8>) -> Option<Seq<u8>>
    decreases d.len(),
{
    if d.len() == 0 {
        None
    } else if d.last().0 == k {
        Some(d.last().1)
    } else {
        lookup(d.drop_last(), k)
    }
}

/// `r` is what the request dictionary `d` asks for.
pub open spec fn interpreted(d: Seq<(Seq<u8>, Seq<u8>)>, r: Result<Request, RequestError>) -> bool {
    match lookup(d, op_key()) {
        None => r matches Err(RequestError::Noop),
        Some(op) => if op == clone_op() {
            match lookup(d, id_key()) {
                Some(id) => r matches Ok(Request::Clone(s)) && encode_utf8(s@) == id,
                None => r matches Err(RequestError::KeyNotFound(k)) && k@ == "id"@,
            }
        } else {
            r matches Err(RequestError::UnknownOp)
        },
    }
}

/// `r` is what the decoded top-level value `o` asks for.
pub open spec fn object_outcome(
    o: Option<Seq<(Seq<u8>, Option<Seq<u8>>)>>,
    r: Result<Request, RequestError>,
) -> bool {
    match o {
        None => r matches Err(RequestError::UnexpectedObject),
        Some(p) => match check_pairs(p) {
            Err(e) => r == Err::<Request, RequestError>(e),
            Ok(d) => interpreted(d, r),
        },
    }
}

/// `r` is what the bytes `b` ask for.
pub open spec fn request_outcome(b: Seq<u8>, r: Result<Request, RequestError>) -> bool {
    match bencode_object(b) {
        None => r matches Err(RequestError::DError),
        Some(o) => object_outcome(o, r),
    }
}

/// Byte-wise equality.
pub fn bytes_eq(a: &[u8], b: &[u8]) -> (r: bool)
    ensures
        r == (a@ == b@),
{
    if a.len() != b.len() {
        return false;
    }
    let mut i: usize = 0;
    while i < a.len()
        invariant
            a@.len() == b@.len(),
            0 <= i <= a@.len(),
            a@.subrange(0, i as int) == b@.subrange(0, i as int),
        decreases a@.len() - i,
    {
        if a[i] != b[i] {
            assert(a@[i as int] != b@[i as int]);
            return false;
        }
        i += 1;
        assert(a@.subrange(0, i as int) =~= b@.subrange(0, i as int));
    }
    assert(a@ =~= a@.subrange(0, i as int));
    assert(b@ =~= b@.subrange(0, i as int));
    true
}

proof fn lemma_check_pairs_err(p: Seq<(Seq<u8>, Option<Seq<u8>>)>, j: int)
    requires
        0 < j <= p.len(),
        check_pairs(p.take(j)) is Err,
    ensures
        check_pairs(p) == check_pairs(p.take(j)),
    decreases p.len() - j,
{
    if j < p.len() {
        assert(p.take(j + 1).drop_last() =~= p.take(j));
        lemma_check_pairs_err(p, j + 1);
    } else {
        assert(p.take(j) =~= p);
    }
}

/// Checks every pair of a decoded dictionary (see `check_pairs`).
pub fn decode_dict(pairs: Vec<(Vec<u8>, Option<Vec<u8>>)>) -> (r: Result<Vec<(Vec<u8>, Vec<u8>)>, RequestError>)
    ensures
        match check_pairs(raw_object_view(Some(pairs)).unwrap()) {
            Ok(d) => r matches Ok(v) && pairs_view(v@) == d,
            Err(e) => r == Err::<Vec<(Vec<u8>, Vec<u8>)>, RequestError>(e),
        },
{
    let ghost p = raw_object_view(Some(pairs)).unwrap();
    let mut out: Vec<(Vec<u8>, Vec<u8>)> = Vec::new();
    let mut i: usize = 0;
    assert(p.take(0) =~= Seq::<(Seq<u8>, Option<Seq<u8>>)>::empty());
    assert(pairs_view(out@) =~= Seq::<(Seq<u8>, Seq<u8>)>::empty());
    while i < pairs.len()
        invariant
            0 <= i <= pairs@.len(),
            p == raw_object_view(Some(pairs)).unwrap(),
            p.len() == pairs@.len(),
            check_pairs(p.take(i as int)) == Ok::<Seq<(Seq<u8>, Seq<u8>)>, RequestError>(pairs_view(out@)),
        decreases pairs@.len() - i,
    {
        assert(p.take(i + 1).drop_last() =~= p.take(i as int));
        assert(p.take(i + 1).last() == p[i as int]);
        let k = &pairs[i].0;
        if utf8_string(k.as_slice()).is_none() {
            proof { lemma_check_pairs_err(p, i as int + 1); }
            return Err(RequestError::InvalidUtf8);
        }
        match &pairs[i].1 {
            None => {
                proof { lemma_check_pairs_err(p, i as int + 1); }
                return Err(RequestError::FailedToReadValue);
            },
            Some(v) => {
                if utf8_string(v.as_slice()).is_none() {
                    proof { lemma_check_pairs_err(p, i as int + 1); }
                    return Err(RequestError::InvalidUtf8);
                }
                let ghost before = out@;
                out.push((k.clone(), v.clone()));
                assert(pairs_view(out@) =~= pairs_view(before).push((k@, v@)));
            },
        }
        i += 1;
    }
    assert(p.take(i as int) =~= p);
    Ok(out)
}

/// The index of the pair that `lookup` reads for `k`, if any.
fn find(d: &Vec<(Vec<u8>, Vec<u8>)>, k: &[u8]) -> (r: Option<usize>)
    ensures
        match lookup(pairs_view(d@), k@) {
            None => r is None,
            Some(v) => r matches Some(i) && i < d@.len() && d@[i as int].1@ == v,
        },
{
    let ghost pv = pairs_view(d@);
    let mut i: usize = d.len();
    assert(pv.take(i as int) =~= pv);
    while i > 0
        invariant
            0 <= i <= d@.len(),
            pv == pairs_view(d@),
            lookup(pv, k@) == lookup(pv.take(i as int), k@),
        decreases i,
    {
        assert(pv.take(i as int).drop_last() =~= pv.take(i - 1));
        assert(pv.take(i as int).last() == pv[i - 1]);
        if bytes_eq(d[i - 1].0.as_slice(), k) {
            return Some(i - 1);
        }
        i -= 1;
    }
    None
}

proof fn lemma_checked_values(p: Seq<(Seq<u8>, Option<Seq<u8>>)>)
    requires
        check_pairs(p) is Ok,
    ensures
        forall|i: int|
            0 <= i < check_pairs(p)->Ok_0.len() ==> valid_utf8(
                #[trigger] check_pairs(p)->Ok_0[i].1,
            ),
    decreases p.len(),
{
    if p.len() > 0 {
        lemma_checked_values(p.drop_last());
    }
}

/// Reads a checked request dictionary as a request: `op` must be present; for
/// `clone`, `id` must be present too. Other keys are ignored.
pub fn interpret(d: &Vec<(Vec<u8>, Vec<u8>)>) -> (r: Result<Request, RequestError>)
    requires
        forall|i: int| 0 <= i < d@.len() ==> valid_utf8(#[trigger] d@[i].1@),
    ensures
        interpreted(pairs_view(d@), r),
{
    let op_k: Vec<u8> = vec![111u8, 112u8];
    assert(op_k@ =~= op_key());
    match find(d, op_k.as_slice()) {
        None => Err(RequestError::Noop),
        Some(i) => {
            let clone_w: Vec<u8> = vec![99u8, 108u8, 111u8, 110u8, 101u8];
            assert(clone_w@ =~= clone_op());
            if bytes_eq(d[i].1.as_slice(), clone_w.as_slice()) {
                let id_k: Vec<u8> = vec![105u8, 100u8];
                assert(id_k@ =~= id_key());
                match find(d, id_k.as_slice()) {
                    None => {
                        proof {
                            reveal_strlit("id");
                        }
                        Err(RequestError::KeyNotFound(String::from_str("id")))
                    },
                    Some(j) => match utf8_string(d[j].1.as_slice()) {
                        Some(s) => Ok(Request::Clone(s)),
                        None => Err(RequestError::InvalidUtf8),
                    },
                }
            } else {
                Err(RequestError::UnknownOp)
            }
        },
    }
}

/// Reads a decoded top-level value as a request: it must be a dictionary of
/// UTF-8 byte strings that `interpret` accepts.
pub fn interpret_object(o: RawObject) -> (r: Result<Request, RequestError>)
    ensures
        object_outcome(raw_object_view(o), r),
{
    match o {
        None => Err(RequestError::UnexpectedObject),
        Some(p) => {
            let ghost pv = raw_object_view(Some(p)).unwrap();
            match decode_dict(p) {
                Err(e) => Err(e),
                Ok(d) => {
                    proof {
                        lemma_checked_values(pv);
                        assert forall|i: int| 0 <= i < d@.len() implies valid_utf8(#[trigger] d@[i].1@) by {
                            assert(pairs_view(d@)[i].1 == d@[i].1@);
                        }
                    }
                    interpret(&d)
                },
            }
        },
    }
}

/// Decodes the bytes of one request and reads it.
pub fn decode_request(b: &[u8]) -> (r: Result<Request, RequestError>)
    ensures
        request_outcome(b@, r),
{
    match decode_object(b) {
        None => Err(RequestError::DError),
        Some(o) => interpret_object(o),
    }
}

impl Response {
    /// The key/value pairs of the response, in wire order.
    pub open spec fn spec_pairs(&self) -> Seq<(Seq<u8>, Seq<u8>)> {
        match self {
            Response::Cloned { id, new_session, status } => seq![
                (id_key(), encode_utf8(id@)),
                (new_session_key(), encode_utf8(new_session@)),
                (status_key(), encode_utf8(status@)),
            ],
        }
    }

    /// The wire form of the response.
    pub open spec fn spec_encode(&self) -> Seq<u8> {
        bencode_dict(self.spec_pairs())
    }

    /// Encodes the response as a bencoded dictionary, keys in the order `id`,
    /// `new-session`, `status`.
    pub fn encode(&self) -> (r: Vec<u8>)
        ensures
            r@ == self.spec_encode(),
    {
        match self {
            Response::Cloned { id, new_session, status } => {
                let pairs: Vec<(Vec<u8>, Vec<u8>)> = vec![
                    (vec![105u8, 100u8], id.as_str().as_bytes_vec()),
                    (
                        vec![110u8, 101u8, 119u8, 45u8, 115u8, 101u8, 115u8, 115u8, 105u8, 111u8, 110u8],
                        new_session.as_str().as_bytes_vec(),
                    ),
                    (vec![115u8, 116u8, 97u8, 116u8, 117u8, 115u8], status.as_str().as_bytes_vec()),
                ];
                assert(pairs_view(pairs@) =~= self.spec_pairs());
                encode_dict(&pairs)
            },
        }
    }
}

impl RequestError {
    /// The name under which the error is reported to the client.
    pub open spec fn spec_name(&self) -> Seq<char> {
        match self {
            RequestError::DError => "decode-error"@,
            RequestError::UnexpectedObject => "unexpected-top-level-shape"@,
            RequestError::FailedToReadValue => "non-string-value"@,
            RequestError::InvalidUtf8 => "invalid-utf8"@,
            RequestError::Noop => "missing-operation"@,
            RequestError::UnknownOp => "unknown-operation"@,
            RequestError::KeyNotFound(_) => "missing-required-field"@,
        }
    }

    /// The name under which the error is reported to the client.
    pub fn name(&self) -> (r: String)
        ensures
            r@ == self.spec_name(),
    {
        let s: &str = match self {
            RequestError::DError => "decode-error",
            RequestError::UnexpectedObject => "unexpected-top-level-shape",
            RequestError::FailedToReadValue => "non-string-value",
            RequestError::InvalidUtf8 => "invalid-utf8",
            RequestError::Noop => "missing-operation",
            RequestError::UnknownOp => "unknown-operation",
            RequestError::KeyNotFound(_) => "missing-required-field",
        };
        String::from_str(s)
    }

    /// The pairs of the rejection sent for this error: `error` (the name),
    /// `field` (only for a missing field: its name), and `status` `error`.
    pub open spec fn spec_pairs(&self) -> Seq<(Seq<u8>, Seq<u8>)> {
        let head = seq![(encode_utf8("error"@), encode_utf8(self.spec_name()))];
        let tail = seq![(encode_utf8("status"@), encode_utf8("error"@))];
        match self {
            RequestError::KeyNotFound(k) => head + seq![(encode_utf8("field"@), encode_utf8(k@))] + tail,
            _ => head + tail,
        }
    }

    /// Encodes the rejection sent to the client for this error.
    pub fn encode(&self) -> (r: Vec<u8>)
        ensures
            r@ == bencode_dict(self.spec_pairs()),
    {
        let mut pairs: Vec<(Vec<u8>, Vec<u8>)> = Vec::new();
        pairs.push((String::from_str("error").as_str().as_bytes_vec(), self.name().as_str().as_bytes_vec()));
        if let RequestError::KeyNotFound(k) = self {
            pairs.push((String::from_str("field").as_str().as_bytes_vec(), k.as_str().as_bytes_vec()));
        }
        pairs.push((String::from_str("status").as_str().as_bytes_vec(), String::from_str("error").as_str().as_bytes_vec()));
        assert(pairs_view(pairs@) =~= self.spec_pairs());
        encode_dict(&pairs)
    }
}

/// A response survives a trip through the codec: its encoding decodes to a
/// dictionary of byte strings, namely its own pairs, and encoding that
/// dictionary again gives the same bytes.
pub proof fn lemma_response_round_trip(r: Response)
    ensures
        bencode_object(r.spec_encode()) == Some(Some(as_entries(r.spec_pairs()))),
        bencode_object(r.spec_encode()) matches Some(Some(e)) && bencode_dict(entry_pairs(e))
            == r.spec_encode(),
{
    lemma_decode_encode_dict(r.spec_pairs());
}

} // verus!
