//! The console client's side of the protocol: what to send for a line typed
//! by the user.
use crate::codec::{encode_value, wire_value};
use crate::protocol::{bye_word, get_word, set_word, split_words, words};
use crate::server::NEWLINE;
use vstd::prelude::*;

verus! {

/// Words joined by single spaces.
pub open spec fn joined(ws: Seq<Seq<u8>>) -> Seq<u8>
    decreases ws.len(),
{
    if ws.len() == 0 {
        Seq::empty()
    } else if ws.len() == 1 {
        ws[0]
    } else {
        joined(ws.drop_last()) + seq![32u8] + ws.last()
    }
}

/// The line sent for a typed line: `SET key value` with the value compressed
/// and written as hexadecimal, `GET key`, or else the typed words as they
/// are; each ends with a line feed.
pub open spec fn request_line(input: Seq<u8>) -> Seq<u8> {
    let w = words(input);
    if w.len() == 3 && w[0] == set_word() {
        (set_word() + seq![32u8] + w[1] + seq![32u8] + wire_value(w[2])).push(NEWLINE)
    } else if w.len() == 2 && w[0] == get_word() {
        (get_word() + seq![32u8] + w[1]).push(NEWLINE)
    } else {
        joined(w).push(NEWLINE)
    }
}

/// Whether the typed line ends the session.
pub open spec fn is_quit(input: Seq<u8>) -> bool {
    words(input) == seq![bye_word()]
}

fn same_bytes(a: &Vec<u8>, b: &[u8]) -> (r: bool)
    ensures
        r == (a@ == b@),
{
    if a.len() != b.len() {
        return false;
    }
    let mut i: usize = 0;
    while i < b.len()
        invariant
            a@.len() == b@.len(),
            i <= b@.len(),
            forall|j: int| 0 <= j < i ==> a@[j] == b@[j],
        decreases b@.len() - i,
    {
        if a[i] != b[i] {
            return false;
        }
        i = i + 1;
    }
    assert(a@ =~= b@);
    true
}

/// The bytes to send for a typed line, and whether the client stops after
/// sending them.
pub fn request_for(input: &[u8]) -> (r: (Vec<u8>, bool))
    ensures
        r.0@ == request_line(input@),
        r.1 == is_quit(input@),
{
    let w = split_words(input);
    let set_kw: Vec<u8> = vec![83u8, 69, 84];
    let get_kw: Vec<u8> = vec![71u8, 69, 84];
    let bye_kw: Vec<u8> = vec![66u8, 89, 69];
    let quit = w.len() == 1 && same_bytes(&w[0], bye_kw.as_slice());
    proof {
        if is_quit(input@) {
            assert(w@[0]@ == bye_word());
        }
        if quit {
            assert(words(input@) =~= seq![bye_word()]);
        }
    }
    let mut out: Vec<u8> = Vec::new();
    if w.len() == 3 && same_bytes(&w[0], set_kw.as_slice()) {
        out.extend_from_slice(set_kw.as_slice());
        out.push(32u8);
        out.extend_from_slice(w[1].as_slice());
        out.push(32u8);
        let encoded = encode_value(w[2].as_slice());
        out.extend_from_slice(encoded.as_slice());
        out.push(NEWLINE);
        assert(out@ =~= request_line(input@));
    } else if w.len() == 2 && same_bytes(&w[0], get_kw.as_slice()) {
        out.extend_from_slice(get_kw.as_slice());
        out.push(32u8);
        out.extend_from_slice(w[1].as_slice());
        out.push(NEWLINE);
        assert(out@ =~= request_line(input@));
    } else {
        let mut i: usize = 0;
        while i < w.len()
            invariant
                i <= w@.len(),
                w@.len() == words(input@).len(),
                forall|j: int| 0 <= j < w@.len() ==> #[trigger] w@[j]@ == words(input@)[j],
                out@ == joined(words(input@).subrange(0, i as int)),
            decreases w@.len() - i,
        {
            if i > 0 {
                out.push(32u8);
            }
            out.extend_from_slice(w[i].as_slice());
            proof {
                let ws = words(input@).subrange(0, i + 1);
                assert(ws.drop_last() =~= words(input@).subrange(0, i as int));
                if i == 0 {
                    assert(out@ =~= ws[0]);
                } else {
                    assert(out@ =~= joined(ws.drop_last()) + seq![32u8] + ws.last());
                }
            }
            i = i + 1;
        }
        assert(words(input@).subrange(0, w@.len() as int) =~= words(input@));
        out.push(NEWLINE);
    }
    (out, quit)
}

} // verus!
