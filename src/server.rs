//! The session registry, the dispatcher, and the decision taken on each read
//! of the connection.

use crate::codec::bencode_dict;
use crate::protocol::{
    decode_request, id_key, new_session_key, request_outcome, status_key, Request,
    RequestError, Response,
};
use crate::uuid::{is_v4_uuid, random_uuid};
use vstd::prelude::*;
use vstd::string::StringExecFns;
use vstd::utf8::encode_utf8;

verus! {

/// Size of the read buffer: one request must arrive in a single read shorter
/// than this.
pub const READ_BUFFER_SIZE: usize = 512;

/// Per-session evaluator state. The evaluator lives outside this library; a
/// session starts from its default, empty state.
#[derive(Debug, Clone, Copy, PartialEq, Eq)]
pub struct Repl {}

impl Repl {
    pub fn new() -> Repl {
        Repl {  }
    }
}

/// A server: the sessions of its one client, by identifier.
pub struct Server {
    sessions: Vec<(String, Repl)>,
}

impl View for Server {
    /// The session identifiers, in order of creation.
    type V = Seq<Seq<char>>;

    closed spec fn view(&self) -> Seq<Seq<char>> {
        self.sessions@.map_values(|e: (String, Repl)| e.0@)
    }
}

/// The registry's identifiers after a clone of `id`: added if new, kept in
/// place (its session replaced by a fresh one) if present.
pub open spec fn with_session(keys: Seq<Seq<char>>, id: Seq<char>) -> Seq<Seq<char>> {
    if keys.contains(id) {
        keys
    } else {
        keys.push(id)
    }
}

/// The wire form of a clone reply for `id` with new identifier `n`.
pub open spec fn cloned_bytes(id: Seq<char>, n: Seq<char>) -> Seq<u8> {
    bencode_dict(
        seq![
            (id_key(), encode_utf8(id)),
            (new_session_key(), encode_utf8(n)),
            (status_key(), encode_utf8("done"@)),
        ],
    )
}

/// What the connection does after one read.
#[derive(Debug)]
pub enum Step {
    /// Nothing was read: the client closed the connection.
    Close,
    /// The read filled the buffer: the request may be cut off, which ends the
    /// connection.
    Overflow,
    /// Send these bytes back.
    Reply(Vec<u8>),
    /// The request was refused for this reason; the connection stays open.
    Reject(RequestError),
}

/// Cloning the same identifier twice leaves the registry as the first clone
/// left it: its size does not grow.
pub proof fn lemma_clone_twice(keys: Seq<Seq<char>>, id: Seq<char>)
    ensures
        with_session(with_session(keys, id), id) == with_session(keys, id),
        with_session(with_session(keys, id), id).len() == with_session(keys, id).len(),
        with_session(keys, id).contains(id),
{
    if !keys.contains(id) {
        assert(keys.push(id)[keys.len() as int] == id);
    }
}

impl Server {
    /// Identifiers are unique.
    pub open spec fn wf(&self) -> bool {
        self@.no_duplicates()
    }

    /// A server with no sessions.
    pub fn new() -> (r: Server)
        ensures
            r.wf(),
            r@ == Seq::<Seq<char>>::empty(),
    {
        let r = Server { sessions: Vec::new() };
        assert(r@ =~= Seq::<Seq<char>>::empty());
        r
    }

    /// The number of sessions.
    pub fn len(&self) -> (r: usize)
        ensures
            r == self@.len(),
    {
        self.sessions.len()
    }

    /// Whether a session has identifier `id`.
    pub fn contains(&self, id: &String) -> (r: bool)
        ensures
            r == self@.contains(id@),
    {
        match self.position(id) {
            Some(_) => true,
            None => false,
        }
    }

    fn position(&self, id: &String) -> (r: Option<usize>)
        ensures
            match r {
                Some(i) => i < self@.len() && self@[i as int] == id@,
                None => !self@.contains(id@),
            },
    {
        let mut i: usize = 0;
        while i < self.sessions.len()
            invariant
                0 <= i <= self@.len(),
                self@.len() == self.sessions@.len(),
                forall|j: int| 0 <= j < i ==> self@[j] != id@,
            decreases self@.len() - i,
        {
            if self.sessions[i].0 == *id {
                return Some(i);
            }
            i += 1;
        }
        None
    }

    /// Gives `id` a fresh session, replacing any session it had.
    fn upsert(&mut self, id: String)
        requires
            old(self).wf(),
        ensures
            final(self).wf(),
            final(self)@ == with_session(old(self)@, id@),
    {
        match self.position(&id) {
            Some(i) => {
                self.sessions.set(i, (id, Repl::new()));
                assert(self@ =~= old(self)@);
            },
            None => {
                self.sessions.push((id, Repl::new()));
                assert(self@ =~= old(self)@.push(id@));
            },
        }
    }

    /// Performs a request with `new_session` as the identifier that a clone
    /// hands out.
    pub fn run_request_with(&mut self, r: Request, new_session: String) -> (resp: Result<
        Response,
        RequestError,
    >)
        requires
            old(self).wf(),
        ensures
            final(self).wf(),
            match r {
                Request::Clone(id) => {
                    &&& final(self)@ == with_session(old(self)@, id@)
                    &&& resp matches Ok(Response::Cloned { id: i, new_session: n, status: st })
                    &&& i@ == id@
                    &&& n@ == new_session@
                    &&& st@ == "done"@
                },
            },
    {
        match r {
            Request::Clone(id) => {
                self.upsert(id.clone());
                Ok(Response::Cloned { id, new_session, status: String::from_str("done") })
            },
        }
    }

    /// Performs a request; a clone hands out a fresh random identifier.
    pub fn run_request(&mut self, r: Request) -> (resp: Result<Response, RequestError>)
        requires
            old(self).wf(),
        ensures
            final(self).wf(),
            match r {
                Request::Clone(id) => {
                    &&& final(self)@ == with_session(old(self)@, id@)
                    &&& resp matches Ok(Response::Cloned { id: i, new_session: n, status: st })
                    &&& i@ == id@
                    &&& is_v4_uuid(n@)
                    &&& st@ == "done"@
                },
            },
    {
        let new_session = random_uuid();
        self.run_request_with(r, new_session)
    }

    /// Handles the bytes of one read: closes on an empty read, stops on a read
    /// that fills the buffer, and otherwise decodes, performs and encodes the
    /// request, or rejects it with its error.
    pub fn handle_read(&mut self, data: &[u8]) -> (r: Step)
        requires
            old(self).wf(),
        ensures
            final(self).wf(),
            data@.len() == 0 ==> r is Close && final(self)@ == old(self)@,
            data@.len() >= READ_BUFFER_SIZE ==> r is Overflow && final(self)@ == old(self)@,
            0 < data@.len() < READ_BUFFER_SIZE ==> exists|q: Result<Request, RequestError>|
                {
                    &&& request_outcome(data@, q)
                    &&& match q {
                        Ok(Request::Clone(id)) => {
                            &&& final(self)@ == with_session(old(self)@, id@)
                            &&& r matches Step::Reply(b)
                            &&& exists|n: Seq<char>| is_v4_uuid(n) && b@ == cloned_bytes(id@, n)
                        },
                        Err(e) => final(self)@ == old(self)@ && r == Step::Reject(e),
                    }
                },
    {
        if data.len() == 0 {
            return Step::Close;
        }
        if data.len() >= READ_BUFFER_SIZE {
            return Step::Overflow;
        }
        match decode_request(data) {
            Err(e) => Step::Reject(e),
            Ok(req) => {
                let resp = self.run_request(req);
                match resp {
                    Ok(resp) => {
                        let bytes = resp.encode();
                        proof {
                            reveal_strlit("done");
                            match resp {
                                Response::Cloned { id, new_session, status } => {
                                    assert(bytes@ == cloned_bytes(id@, new_session@));
                                },
                            }
                        }
                        Step::Reply(bytes)
                    },
                    Err(e) => Step::Reject(e),
                }
            },
        }
    }
}

} // verus!
