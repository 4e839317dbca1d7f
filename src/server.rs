//! The decisions of the readiness loop: which resource an event is for,
//! token allocation for accepted connections, and what a connection's
//! received bytes produce. The loop itself, and the sockets, live outside.
use crate::protocol::{next_store, request_of, respond, response_of};
use crate::store::KeyValueStore;
use vstd::prelude::*;
use std::collections::HashMap;
use vstd::slice::slice_to_vec;

verus! {

/// The token permanently bound to the listening socket.
pub const LISTENER: usize = 0;

/// The line feed that ends each request.
pub const NEWLINE: u8 = 10;

/// The resource a readiness event belongs to.
pub enum Source {
    Listener,
    Client(usize),
}

/// Tells the listener's token from a client's.
pub fn source_of(token: usize) -> (r: Source)
    ensures
        r is Listener <==> token == LISTENER,
        r matches Source::Client(t) ==> t == token,
{
    if token == LISTENER {
        Source::Listener
    } else {
        Source::Client(token)
    }
}

/// What a buffer of received bytes does to a session, reading it from
/// position `i` with the current line begun at `ls`: the store afterwards,
/// the bytes to send, whether the session ends, and the bytes of an
/// unfinished line that wait for more input.
pub open spec fn run(m: Map<Seq<char>, Seq<u8>>, buf: Seq<u8>, i: int, ls: int) -> (
    Map<Seq<char>, Seq<u8>>,
    Seq<u8>,
    bool,
    Seq<u8>,
)
    decreases buf.len() - i,
{
    if i >= buf.len() {
        (m, Seq::empty(), false, buf.subrange(ls, buf.len() as int))
    } else if buf[i] == NEWLINE {
        let line = buf.subrange(ls, i);
        if request_of(line) is Bye {
            (m, response_of(m, line), true, Seq::empty())
        } else {
            let r = run(next_store(m, request_of(line)), buf, i + 1, i + 1);
            (r.0, response_of(m, line) + r.1, r.2, r.3)
        }
    } else {
        run(m, buf, i + 1, ls)
    }
}

/// The effect of a whole buffer of received bytes on a session.
pub open spec fn session_step(m: Map<Seq<char>, Seq<u8>>, buf: Seq<u8>) -> (
    Map<Seq<char>, Seq<u8>>,
    Seq<u8>,
    bool,
    Seq<u8>,
) {
    run(m, buf, 0, 0)
}

/// Runs every complete line of a buffer against the store, in order, up to
/// and including a `BYE`. Returns the responses, whether the session ends,
/// and the unfinished last line.
pub fn process_lines(store: &mut KeyValueStore, buf: &[u8]) -> (r: (Vec<u8>, bool, Vec<u8>))
    requires
        old(store).wf(),
    ensures
        final(store).wf(),
        final(store)@ == session_step(old(store)@, buf@).0,
        r.0@ == session_step(old(store)@, buf@).1,
        r.1 == session_step(old(store)@, buf@).2,
        r.2@ == session_step(old(store)@, buf@).3,
{
    let ghost m0 = store@;
    let mut out: Vec<u8> = Vec::new();
    let mut ls: usize = 0;
    let mut i: usize = 0;
    while i < buf.len()
        invariant
            store.wf(),
            m0 == old(store)@,
            ls <= i <= buf@.len(),
            ({
                let whole = run(m0, buf@, 0, 0);
                let r = run(store@, buf@, i as int, ls as int);
                whole == (r.0, out@ + r.1, r.2, r.3)
            }),
        decreases buf@.len() - i,
    {
        if buf[i] == NEWLINE {
            let ghost m = store@;
            let ghost line = buf@.subrange(ls as int, i as int);
            let ghost before = out@;
            let (mut resp, close) = respond(store, &buf[ls..i]);
            let ghost rv = resp@;
            out.append(&mut resp);
            assert(out@ =~= before + rv);
            if close {
                proof {
                    let r = run(m, buf@, i as int, ls as int);
                    assert(r == (m, rv, true, Seq::<u8>::empty()));
                    assert(store@ == m);
                    assert(before + rv + Seq::<u8>::empty() =~= before + rv);
                }
                return (out, true, Vec::new());
            }
            proof {
                let r2 = run(store@, buf@, i + 1, i + 1);
                assert(out@ + r2.1 =~= before + (rv + r2.1));
            }
            ls = i + 1;
        }
        i = i + 1;
    }
    let rest = slice_to_vec(&buf[ls..buf.len()]);
    assert(out@ + Seq::<u8>::empty() =~= out@);
    (out, false, rest)
}

/// What the loop does after a connection's bytes were handled.
pub struct Step {
    /// Bytes to write back to the same connection.
    pub output: Vec<u8>,
    /// Whether the connection is to be deregistered and dropped.
    pub close: bool,
}

/// The server's state: the shared store and the registry of live
/// connections, each keyed by its token and holding the bytes of a request
/// line that has not been completed yet.
pub struct Server {
    store: KeyValueStore,
    conns: HashMap<usize, Vec<u8>>,
    next_token: usize,
}

impl Server {
    /// Tokens are never the listener's and lie below the next one to be
    /// handed out.
    pub closed spec fn wf(&self) -> bool {
        &&& self.store.wf()
        &&& LISTENER < self.next_token
        &&& forall|t: usize|
            #[trigger] self.conns@.contains_key(t) ==> LISTENER < t && t < self.next_token
    }

    /// The live connections, each with its unfinished line.
    pub closed spec fn sessions(&self) -> Map<usize, Seq<u8>> {
        self.conns@.map_values(|v: Vec<u8>| v@)
    }

    /// The contents of the shared store.
    pub closed spec fn contents(&self) -> Map<Seq<char>, Seq<u8>> {
        self.store@
    }

    /// The token that the next accepted connection receives.
    pub closed spec fn next_token(&self) -> nat {
        self.next_token as nat
    }

    /// Every live connection's token lies strictly between the listener's
    /// and the next one to be handed out: a newly accepted connection never
    /// shares its token with a live one, also after others were closed.
    pub proof fn lemma_live_tokens(&self)
        requires
            self.wf(),
        ensures
            forall|t: usize|
                #[trigger] self.sessions().contains_key(t) ==> LISTENER < t && t < self.next_token(),
    {
    }

    /// No connection yet, an empty store, and the first client token after
    /// the listener's.
    pub fn new() -> (r: Self)
        ensures
            r.wf(),
            r.sessions() == Map::<usize, Seq<u8>>::empty(),
            r.contents() == Map::<Seq<char>, Seq<u8>>::empty(),
            r.next_token() == LISTENER + 1,
    {
        let r = Server { store: KeyValueStore::new(), conns: HashMap::new(), next_token: LISTENER + 1 };
        assert(r.sessions() =~= Map::<usize, Seq<u8>>::empty());
        r
    }

    /// Whether a token belongs to a live connection.
    pub fn is_live(&self, token: usize) -> (r: bool)
        requires
            self.wf(),
        ensures
            r == self.sessions().contains_key(token),
    {
        broadcast use vstd::std_specs::hash::group_hash_axioms;

        self.conns.contains_key(&token)
    }

    /// Records a newly accepted connection under a fresh token, which it
    /// returns; `None` once the tokens are used up.
    pub fn accept(&mut self) -> (r: Option<usize>)
        requires
            old(self).wf(),
        ensures
            final(self).wf(),
            r is None <==> old(self).next_token() == usize::MAX,
            r is None ==> *final(self) == *old(self),
            r matches Some(t) ==> {
                &&& t == old(self).next_token()
                &&& t != LISTENER
                &&& !old(self).sessions().contains_key(t)
                &&& final(self).sessions() == old(self).sessions().insert(t, Seq::empty())
                &&& final(self).contents() == old(self).contents()
                &&& final(self).next_token() == t + 1
            },
    {
        broadcast use vstd::std_specs::hash::group_hash_axioms;

        if self.next_token == usize::MAX {
            return None;
        }
        let t = self.next_token;
        self.conns.insert(t, Vec::new());
        self.next_token = t + 1;
        assert(self.sessions() =~= old(self).sessions().insert(t, Seq::empty()));
        Some(t)
    }

    /// Handles bytes read from a connection. Bytes for a token with no live
    /// connection are ignored. No bytes at all means that the peer closed.
    /// Otherwise they are added to the connection's unfinished line and every
    /// line that is now complete is answered, in order, until a `BYE`.
    pub fn receive(&mut self, token: usize, data: &[u8]) -> (r: Step)
        requires
            old(self).wf(),
        ensures
            final(self).wf(),
            final(self).next_token() == old(self).next_token(),
            !old(self).sessions().contains_key(token) ==> {
                &&& *final(self) == *old(self)
                &&& r.output@ == Seq::<u8>::empty()
                &&& !r.close
            },
            old(self).sessions().contains_key(token) && data@.len() == 0 ==> {
                &&& *final(self) == *old(self)
                &&& r.output@ == Seq::<u8>::empty()
                &&& r.close
            },
            old(self).sessions().contains_key(token) && data@.len() > 0 ==> {
                let s = session_step(
                    old(self).contents(),
                    old(self).sessions()[token] + data@,
                );
                &&& final(self).contents() == s.0
                &&& r.output@ == s.1
                &&& r.close == s.2
                &&& final(self).sessions() == old(self).sessions().insert(token, s.3)
            },
    {
        broadcast use vstd::std_specs::hash::group_hash_axioms;

        let mut buf = match self.conns.get(&token) {
            Some(pending) => slice_to_vec(pending.as_slice()),
            None => {
                return Step { output: Vec::new(), close: false };
            },
        };
        if data.len() == 0 {
            return Step { output: Vec::new(), close: true };
        }
        buf.extend_from_slice(data);
        assert(buf@ =~= self.sessions()[token] + data@);
        let (output, close, rest) = process_lines(&mut self.store, buf.as_slice());
        self.conns.insert(token, rest);
        assert(self.sessions() =~= old(self).sessions().insert(token, session_step(old(self).contents(), buf@).3));
        Step { output, close }
    }

    /// Drops a connection from the registry; true when it was live.
    pub fn close(&mut self, token: usize) -> (r: bool)
        requires
            old(self).wf(),
        ensures
            final(self).wf(),
            r == old(self).sessions().contains_key(token),
            final(self).sessions() == old(self).sessions().remove(token),
            final(self).contents() == old(self).contents(),
            final(self).next_token() == old(self).next_token(),
    {
        broadcast use vstd::std_specs::hash::group_hash_axioms;

        let r = self.conns.remove(&token).is_some();
        assert(self.sessions() =~= old(self).sessions().remove(token));
        r
    }
}

} // verus!
