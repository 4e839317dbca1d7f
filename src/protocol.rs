//! The request protocol: a line is split into whitespace-separated words,
//! read as `SET key value`, `GET key` or `BYE`, and applied to the store.
use crate::codec::{decode_payload, compress, lossy_text, payload_of, text_of, zlib_of};
use crate::store::KeyValueStore;
use vstd::prelude::*;
use vstd::slice::slice_to_vec;

verus! {

/// ASCII whitespace: tab, line feed, vertical tab, form feed, carriage return, space.
pub open spec fn is_ascii_space(b: u8) -> bool {
    b == 9 || b == 10 || b == 11 || b == 12 || b == 13 || b == 32
}

/// The three-byte UTF-8 forms of Unicode whitespace: U+1680, U+2000 to
/// U+200A, U+2028, U+2029, U+202F, U+205F and U+3000.
pub open spec fn is_space3(a: u8, b: u8, c: u8) -> bool {
    ||| (a == 0xE1 && b == 0x9A && c == 0x80)
    ||| (a == 0xE2 && b == 0x80 && ((0x80 <= c <= 0x8A) || c == 0xA8 || c == 0xA9 || c == 0xAF))
    ||| (a == 0xE2 && b == 0x81 && c == 0x9F)
    ||| (a == 0xE3 && b == 0x80 && c == 0x80)
}

/// The length of the UTF-8 form of a Unicode whitespace character (the
/// White_Space property) that begins at position `i`, or 0 where none does.
/// Besides ASCII whitespace these are U+0085 and U+00A0 (two bytes) and the
/// three-byte forms above. Each begins with a leading byte, so no invalid
/// sequence that text decoding replaces can absorb one.
pub open spec fn space_len(s: Seq<u8>, i: int) -> int {
    if i < 0 || i >= s.len() {
        0
    } else if is_ascii_space(s[i]) {
        1
    } else if s[i] == 0xC2 && i + 1 < s.len() && (s[i + 1] == 0x85 || s[i + 1] == 0xA0) {
        2
    } else if i + 2 < s.len() && is_space3(s[i], s[i + 1], s[i + 2]) {
        3
    } else {
        0
    }
}

/// The words of `s` from position `i` on, where `start` is the beginning of a
/// word whose end has not been reached yet.
pub open spec fn scan_words(s: Seq<u8>, i: int, start: Option<int>) -> Seq<Seq<u8>>
    decreases s.len() - i,
{
    if i >= s.len() {
        match start {
            Some(st) => seq![s.subrange(st, s.len() as int)],
            None => Seq::empty(),
        }
    } else if space_len(s, i) > 0 {
        match start {
            Some(st) => seq![s.subrange(st, i)] + scan_words(s, i + space_len(s, i), None),
            None => scan_words(s, i + space_len(s, i), None),
        }
    } else {
        match start {
            Some(st) => scan_words(s, i + 1, Some(st)),
            None => scan_words(s, i + 1, Some(i)),
        }
    }
}

/// The length of the whitespace character that begins at `i`, or 0.
fn space_at(s: &[u8], i: usize) -> (r: usize)
    requires
        i < s@.len(),
    ensures
        r == space_len(s@, i as int),
{
    let a = s[i];
    if a == 9 || a == 10 || a == 11 || a == 12 || a == 13 || a == 32 {
        return 1;
    }
    if a == 0xC2 && i + 1 < s.len() && (s[i + 1] == 0x85 || s[i + 1] == 0xA0) {
        return 2;
    }
    if s.len() - i > 2 {
        let b = s[i + 1];
        let c = s[i + 2];
        if (a == 0xE1 && b == 0x9A && c == 0x80) || (a == 0xE2 && b == 0x80 && ((0x80 <= c
            && c <= 0x8A) || c == 0xA8 || c == 0xA9 || c == 0xAF)) || (a == 0xE2 && b == 0x81
            && c == 0x9F) || (a == 0xE3 && b == 0x80 && c == 0x80) {
            return 3;
        }
    }
    0
}

/// The words of `s`: the maximal runs of bytes that hold no whitespace
/// character, in order.
pub open spec fn words(s: Seq<u8>) -> Seq<Seq<u8>> {
    scan_words(s, 0, None)
}

pub open spec fn set_word() -> Seq<u8> {
    seq![83u8, 69, 84]
}

pub open spec fn get_word() -> Seq<u8> {
    seq![71u8, 69, 84]
}

pub open spec fn bye_word() -> Seq<u8> {
    seq![66u8, 89, 69]
}

/// What a request line asks for.
pub ghost enum Request {
    /// Store the payload (hexadecimal text) under the key.
    Store(Seq<u8>, Seq<u8>),
    /// Look the key up.
    Fetch(Seq<u8>),
    /// End the session.
    Bye,
    /// Anything else.
    Invalid,
}

/// Reads a line: `BYE` alone, `SET` with two more words, `GET` with one more.
pub open spec fn request_of(line: Seq<u8>) -> Request {
    let w = words(line);
    if w == seq![bye_word()] {
        Request::Bye
    } else if w.len() == 3 && w[0] == set_word() {
        Request::Store(w[1], w[2])
    } else if w.len() == 2 && w[0] == get_word() {
        Request::Fetch(w[1])
    } else {
        Request::Invalid
    }
}

/// The store after a request: only `SET` changes it.
pub open spec fn next_store(m: Map<Seq<char>, Seq<u8>>, req: Request) -> Map<Seq<char>, Seq<u8>> {
    match req {
        Request::Store(k, h) => m.insert(lossy_text(k), payload_of(h)),
        _ => m,
    }
}

/// The outcome of a request, as plain values.
pub ghost enum Answer {
    Stored,
    Value(Seq<u8>),
    NotFound,
    Farewell,
    Error,
}

/// How the store answers a request.
pub open spec fn answer(m: Map<Seq<char>, Seq<u8>>, req: Request) -> Answer {
    match req {
        Request::Store(_, _) => Answer::Stored,
        Request::Fetch(k) => if m.contains_key(lossy_text(k)) {
            Answer::Value(m[lossy_text(k)])
        } else {
            Answer::NotFound
        },
        Request::Bye => Answer::Farewell,
        Request::Invalid => Answer::Error,
    }
}

/// `OK\n`
pub open spec fn ok_text() -> Seq<u8> {
    seq![79u8, 75, 10]
}

/// `NOT FOUND\n`
pub open spec fn not_found_text() -> Seq<u8> {
    seq![78u8, 79, 84, 32, 70, 79, 85, 78, 68, 10]
}

/// `Goodbye!\n`
pub open spec fn farewell_text() -> Seq<u8> {
    seq![71u8, 111, 111, 100, 98, 121, 101, 33, 10]
}

/// `ERROR\n`
pub open spec fn error_text() -> Seq<u8> {
    seq![69u8, 82, 82, 79, 82, 10]
}

/// The bytes sent back for an answer: a stored value verbatim (it is already
/// compressed), every other answer as a compressed text.
pub open spec fn answer_bytes(a: Answer) -> Seq<u8> {
    match a {
        Answer::Stored => zlib_of(ok_text()),
        Answer::Value(v) => v,
        Answer::NotFound => zlib_of(not_found_text()),
        Answer::Farewell => zlib_of(farewell_text()),
        Answer::Error => zlib_of(error_text()),
    }
}

/// The response to one request line against a store.
pub open spec fn response_of(m: Map<Seq<char>, Seq<u8>>, line: Seq<u8>) -> Seq<u8> {
    answer_bytes(answer(m, request_of(line)))
}

/// The outcome of a request.
pub enum Reply {
    Stored,
    Value(Vec<u8>),
    NotFound,
    Farewell,
    Error,
}

impl View for Reply {
    type V = Answer;

    open spec fn view(&self) -> Answer {
        match self {
            Reply::Stored => Answer::Stored,
            Reply::Value(v) => Answer::Value(v@),
            Reply::NotFound => Answer::NotFound,
            Reply::Farewell => Answer::Farewell,
            Reply::Error => Answer::Error,
        }
    }
}

impl Reply {
    /// Whether the reply ends the session.
    pub fn is_farewell(&self) -> (r: bool)
        ensures
            r == (self@ is Farewell),
    {
        match self {
            Reply::Farewell => true,
            _ => false,
        }
    }

    /// The bytes written back to the client.
    pub fn into_bytes(self) -> (r: Vec<u8>)
        ensures
            r@ == answer_bytes(self@),
    {
        match self {
            Reply::Stored => compress(vec![79u8, 75, 10].as_slice()),
            Reply::Value(v) => v,
            Reply::NotFound => compress(vec![78u8, 79, 84, 32, 70, 79, 85, 78, 68, 10].as_slice()),
            Reply::Farewell => compress(vec![71u8, 111, 111, 100, 98, 121, 101, 33, 10].as_slice()),
            Reply::Error => compress(vec![69u8, 82, 82, 79, 82, 10].as_slice()),
        }
    }
}

/// Splits a line into its words.
pub fn split_words(line: &[u8]) -> (r: Vec<Vec<u8>>)
    ensures
        r@.len() == words(line@).len(),
        forall|j: int| 0 <= j < r@.len() ==> #[trigger] r@[j]@ == words(line@)[j],
{
    let mut out: Vec<Vec<u8>> = Vec::new();
    let ghost mut acc: Seq<Seq<u8>> = Seq::empty();
    let mut start: Option<usize> = None;
    let mut i: usize = 0;
    while i < line.len()
        invariant
            i <= line@.len(),
            start matches Some(st) ==> st < i,
            acc.len() == out@.len(),
            forall|j: int| 0 <= j < out@.len() ==> #[trigger] out@[j]@ == acc[j],
            words(line@) == acc + scan_words(
                line@,
                i as int,
                match start {
                    Some(st) => Some(st as int),
                    None => None,
                },
            ),
        decreases line@.len() - i,
    {
        let n = space_at(line, i);
        if n > 0 {
            match start {
                Some(st) => {
                    let w = slice_to_vec(&line[st..i]);
                    proof {
                        acc = acc.push(w@);
                        assert(acc + scan_words(line@, i + n, None) =~= (acc.drop_last() + seq![
                            w@,
                        ]) + scan_words(line@, i + n, None));
                    }
                    out.push(w);
                    start = None;
                },
                None => {},
            }
            i = i + n;
        } else {
            match start {
                Some(_) => {},
                None => {
                    start = Some(i);
                },
            }
            i = i + 1;
        }
    }
    match start {
        Some(st) => {
            let w = slice_to_vec(&line[st..line.len()]);
            proof {
                acc = acc.push(w@);
            }
            out.push(w);
        },
        None => {},
    }
    assert(acc =~= words(line@));
    out
}

/// Whether a word is the given keyword.
fn is_keyword(w: &Vec<u8>, k: &[u8]) -> (r: bool)
    ensures
        r == (w@ == k@),
{
    if w.len() != k.len() {
        return false;
    }
    let mut i: usize = 0;
    while i < k.len()
        invariant
            w@.len() == k@.len(),
            i <= k@.len(),
            forall|j: int| 0 <= j < i ==> w@[j] == k@[j],
        decreases k@.len() - i,
    {
        if w[i] != k[i] {
            return false;
        }
        i = i + 1;
    }
    assert(w@ =~= k@);
    true
}

/// Carries out one request line against the store.
pub fn execute(store: &mut KeyValueStore, line: &[u8]) -> (r: Reply)
    requires
        old(store).wf(),
    ensures
        final(store).wf(),
        final(store)@ == next_store(old(store)@, request_of(line@)),
        r@ == answer(old(store)@, request_of(line@)),
{
    let w = split_words(line);
    let set_kw: Vec<u8> = vec![83u8, 69, 84];
    let get_kw: Vec<u8> = vec![71u8, 69, 84];
    let bye_kw: Vec<u8> = vec![66u8, 89, 69];
    if w.len() == 1 && is_keyword(&w[0], bye_kw.as_slice()) {
        assert(words(line@) =~= seq![bye_word()]);
        Reply::Farewell
    } else if w.len() == 3 && is_keyword(&w[0], set_kw.as_slice()) {
        assert(!(words(line@) =~= seq![bye_word()]));
        let key = text_of(w[1].as_slice());
        let value = decode_payload(w[2].as_slice());
        store.set(key, value);
        Reply::Stored
    } else if w.len() == 2 && is_keyword(&w[0], get_kw.as_slice()) {
        assert(!(words(line@) =~= seq![bye_word()]));
        let key = text_of(w[1].as_slice());
        match store.get(key.as_str()) {
            Some(v) => Reply::Value(slice_to_vec(v.as_slice())),
            None => Reply::NotFound,
        }
    } else {
        proof {
            if words(line@) =~= seq![bye_word()] {
                assert(w@[0]@ == bye_word());
            }
        }
        Reply::Error
    }
}

/// The response to one request line, and whether the session ends with it.
pub fn respond(store: &mut KeyValueStore, line: &[u8]) -> (r: (Vec<u8>, bool))
    requires
        old(store).wf(),
    ensures
        final(store).wf(),
        final(store)@ == next_store(old(store)@, request_of(line@)),
        r.0@ == response_of(old(store)@, line@),
        r.1 == (request_of(line@) is Bye),
{
    let reply = execute(store, line);
    let close = reply.is_farewell();
    (reply.into_bytes(), close)
}

} // verus!
