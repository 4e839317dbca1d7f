//! Properties that relate several requests or several calls.
use crate::codec::{hex_bytes, hex_text, is_hex_text, lemma_hex_round_trip, wire_value, zlib_of};
use crate::protocol::{
    bye_word, farewell_text, get_word, next_store, space_len, not_found_text, ok_text,
    request_of, response_of, scan_words, set_word, words, Request,
};
use crate::client::request_line;
use crate::server::{run, session_step, NEWLINE};
use vstd::prelude::*;

verus! {

/// A word: non-empty, and no whitespace character begins inside it when a
/// space follows it.
pub open spec fn is_word(w: Seq<u8>) -> bool {
    w.len() > 0 && forall|i: int| 0 <= i < w.len() ==> #[trigger] space_len(w.push(32u8), i) == 0
}

/// Inside a line, a word followed by a space or by the end of the line holds
/// no whitespace character.
proof fn lemma_word_inside(s: Seq<u8>, at: int, w: Seq<u8>)
    requires
        is_word(w),
        0 <= at,
        at + w.len() <= s.len(),
        s.subrange(at, at + w.len()) == w,
        at + w.len() == s.len() || s[at + w.len()] == 32,
    ensures
        forall|k: int| at <= k < at + w.len() ==> #[trigger] space_len(s, k) == 0,
{
    let wp = w.push(32u8);
    let n = w.len() as int;
    assert forall|k: int| at <= k < at + n implies #[trigger] space_len(s, k) == 0 by {
        let j = k - at;
        assert(space_len(wp, j) == 0);
        assert(s[k] == w[j] && wp[j] == w[j]);
        if j + 1 < n {
            assert(s[k + 1] == w[j + 1] && wp[j + 1] == w[j + 1]);
            if j + 2 < n {
                assert(s[k + 2] == w[j + 2] && wp[j + 2] == w[j + 2]);
            } else {
                assert(wp[j + 2] == 32);
            }
        } else {
            assert(wp[j + 1] == 32);
        }
    }
}

/// Two words separated by a space.
pub open spec fn spaced(a: Seq<u8>, b: Seq<u8>) -> Seq<u8> {
    a + seq![32u8] + b
}

/// The request line that stores an encoded value under a key.
pub open spec fn set_line(key: Seq<u8>, value: Seq<u8>) -> Seq<u8> {
    spaced(spaced(set_word(), key), wire_value(value))
}

/// The request line that looks a key up.
pub open spec fn get_line(key: Seq<u8>) -> Seq<u8> {
    spaced(get_word(), key)
}

/// A line and its line feed.
pub open spec fn framed(line: Seq<u8>) -> Seq<u8> {
    line.push(NEWLINE)
}

proof fn lemma_scan_through_word(s: Seq<u8>, i: int, j: int, st: int)
    requires
        0 <= st <= i <= j <= s.len(),
        forall|k: int| i <= k < j ==> #[trigger] space_len(s, k) == 0,
    ensures
        scan_words(s, i, Some(st)) == scan_words(s, j, Some(st)),
    decreases j - i,
{
    if i < j {
        lemma_scan_through_word(s, i + 1, j, st);
    }
}

/// The words of `a b ...` when `a` is a word: `a`, then the words of the rest.
proof fn lemma_scan_word_then(s: Seq<u8>, at: int, a: Seq<u8>)
    requires
        is_word(a),
        0 <= at,
        at + a.len() < s.len(),
        s.subrange(at, at + a.len()) == a,
        s[at + a.len()] == 32,
    ensures
        scan_words(s, at, None) == seq![a] + scan_words(s, at + a.len() + 1, None),
{
    lemma_word_inside(s, at, a);
    assert(space_len(s, at) == 0);
    lemma_scan_through_word(s, at + 1, at + a.len(), at);
    assert(space_len(s, at + a.len()) == 1);
}

proof fn lemma_scan_last_word(s: Seq<u8>, at: int, a: Seq<u8>)
    requires
        is_word(a),
        0 <= at,
        at + a.len() == s.len(),
        s.subrange(at, at + a.len()) == a,
    ensures
        scan_words(s, at, None) == seq![a],
{
    lemma_word_inside(s, at, a);
    assert(space_len(s, at) == 0);
    lemma_scan_through_word(s, at + 1, at + a.len(), at);
}

proof fn lemma_words_two(a: Seq<u8>, b: Seq<u8>)
    requires
        is_word(a),
        is_word(b),
    ensures
        words(spaced(a, b)) == seq![a, b],
{
    let s = spaced(a, b);
    assert(s.subrange(0, a.len() as int) =~= a);
    let at: int = a.len() as int + 1;
    assert(s.subrange(at, s.len() as int) =~= b);
    lemma_scan_word_then(s, 0, a);
    lemma_scan_last_word(s, at, b);
    assert(seq![a] + seq![b] =~= seq![a, b]);
}

proof fn lemma_words_three(a: Seq<u8>, b: Seq<u8>, c: Seq<u8>)
    requires
        is_word(a),
        is_word(b),
        is_word(c),
    ensures
        words(spaced(spaced(a, b), c)) == seq![a, b, c],
{
    let s = spaced(spaced(a, b), c);
    let at: int = a.len() as int + 1;
    let at2: int = at + b.len() + 1;
    assert(s.subrange(0, a.len() as int) =~= a);
    assert(s.subrange(at, at + b.len()) =~= b);
    assert(s.subrange(at2, s.len() as int) =~= c);
    lemma_scan_word_then(s, 0, a);
    lemma_scan_word_then(s, at, b);
    lemma_scan_last_word(s, at2, c);
    assert(seq![a] + (seq![b] + seq![c]) =~= seq![a, b, c]);
}

proof fn lemma_keywords()
    ensures
        is_word(set_word()),
        is_word(get_word()),
        is_word(bye_word()),
        set_word() != get_word(),
        set_word() != bye_word(),
        get_word() != bye_word(),
{
    assert(set_word()[0] != get_word()[0]);
    assert(set_word()[0] != bye_word()[0]);
    assert(get_word()[0] != bye_word()[0]);
}

proof fn lemma_wire_value_is_word(value: Seq<u8>)
    requires
        zlib_of(value).len() > 0,
    ensures
        is_word(wire_value(value)),
        is_hex_text(wire_value(value)),
        hex_bytes(wire_value(value)) == zlib_of(value),
{
    lemma_hex_round_trip(zlib_of(value));
    let t = hex_text(zlib_of(value));
    assert(t.len() > 0);
    let tp = t.push(32u8);
    assert forall|i: int| 0 <= i < t.len() implies #[trigger] space_len(tp, i) == 0 by {
        assert(tp[i] == t[i]);
        assert(48 <= t[i] <= 57 || 97 <= t[i] <= 102);
    }
}

/// How a `SET` line with a key and an encoded value is read.
pub proof fn lemma_read_set_line(key: Seq<u8>, value: Seq<u8>)
    requires
        is_word(key),
        zlib_of(value).len() > 0,
    ensures
        request_of(set_line(key, value)) == Request::Store(key, wire_value(value)),
{
    lemma_keywords();
    lemma_wire_value_is_word(value);
    lemma_words_three(set_word(), key, wire_value(value));
}

/// How a `GET` line with a key is read.
pub proof fn lemma_read_get_line(key: Seq<u8>)
    requires
        is_word(key),
    ensures
        request_of(get_line(key)) == Request::Fetch(key),
{
    lemma_keywords();
    lemma_words_two(get_word(), key);
}

proof fn lemma_run_to_newline(m: Map<Seq<char>, Seq<u8>>, buf: Seq<u8>, i: int, j: int, ls: int)
    requires
        0 <= i <= j <= buf.len(),
        forall|k: int| i <= k < j ==> #[trigger] buf[k] != NEWLINE,
    ensures
        run(m, buf, i, ls) == run(m, buf, j, ls),
    decreases j - i,
{
    if i < j {
        lemma_run_to_newline(m, buf, i + 1, j, ls);
    }
}

/// A single line with its line feed, received on a session with no
/// unfinished line: its request is carried out and answered, and the
/// session ends exactly when it is `BYE`.
pub proof fn lemma_one_line(m: Map<Seq<char>, Seq<u8>>, line: Seq<u8>)
    requires
        forall|k: int| 0 <= k < line.len() ==> #[trigger] line[k] != NEWLINE,
    ensures
        session_step(m, framed(line)) == (
            next_store(m, request_of(line)),
            response_of(m, line),
            request_of(line) is Bye,
            Seq::<u8>::empty(),
        ),
{
    let buf = framed(line);
    let n = line.len() as int;
    assert forall|k: int| 0 <= k < n implies #[trigger] buf[k] != NEWLINE by {
        assert(buf[k] == line[k]);
    }
    lemma_run_to_newline(m, buf, 0, n, 0);
    assert(buf.subrange(0, n) =~= line);
    if !(request_of(line) is Bye) {
        let m2 = next_store(m, request_of(line));
        assert(run(m2, buf, n + 1, n + 1).3 =~= Seq::<u8>::empty());
        assert(response_of(m, line) + run(m2, buf, n + 1, n + 1).1 =~= response_of(m, line));
    }
}

/// A value stored with `SET` under a key is what a later `GET` of that key
/// returns, on the same connection or on any other: the zlib stream of the
/// value, which the client decompresses. The `SET` itself is acknowledged
/// with a compressed `OK`. (A zlib stream is never empty: it opens with a
/// two-byte header, so the encoded value is always a word of the line.)
pub proof fn lemma_set_then_get(m: Map<Seq<char>, Seq<u8>>, key: Seq<u8>, value: Seq<u8>)
    requires
        is_word(key),
        zlib_of(value).len() > 0,
    ensures
        ({
            let first = session_step(m, framed(set_line(key, value)));
            let second = session_step(first.0, framed(get_line(key)));
            &&& first.1 == zlib_of(ok_text())
            &&& !first.2
            &&& second.1 == zlib_of(value)
            &&& !second.2
            &&& second.0 == first.0
        }),
{
    lemma_keywords();
    lemma_wire_value_is_word(value);
    lemma_read_set_line(key, value);
    lemma_read_get_line(key);
    let sl = set_line(key, value);
    let gl = get_line(key);
    assert forall|k: int| 0 <= k < sl.len() implies #[trigger] sl[k] != NEWLINE by {
        let a = set_word().len() as int;
        let b = a + 1 + key.len();
        if k < a {
            assert(sl[k] == set_word()[k]);
        } else if k == a || k == b {
        } else if k < b {
            assert(sl[k] == key[k - a - 1]);
            assert(space_len(key.push(32u8), k - a - 1) == 0);
            assert(key.push(32u8)[k - a - 1] == key[k - a - 1]);
        } else {
            let wv = wire_value(value);
            assert(sl[k] == wv[k - b - 1]);
            assert(space_len(wv.push(32u8), k - b - 1) == 0);
            assert(wv.push(32u8)[k - b - 1] == wv[k - b - 1]);
        }
    }
    assert forall|k: int| 0 <= k < gl.len() implies #[trigger] gl[k] != NEWLINE by {
        let a = get_word().len() as int;
        if k < a {
            assert(gl[k] == get_word()[k]);
        } else if k > a {
            assert(gl[k] == key[k - a - 1]);
            assert(space_len(key.push(32u8), k - a - 1) == 0);
            assert(key.push(32u8)[k - a - 1] == key[k - a - 1]);
        }
    }
    lemma_one_line(m, sl);
    let m1 = next_store(m, request_of(sl));
    lemma_one_line(m1, gl);
}

/// `GET` of a key that the store does not hold answers with the compressed
/// `NOT FOUND`, whatever else the store holds, and leaves the store alone.
pub proof fn lemma_missing_key(
    m1: Map<Seq<char>, Seq<u8>>,
    m2: Map<Seq<char>, Seq<u8>>,
    line: Seq<u8>,
)
    requires
        request_of(line) is Fetch,
        !m1.contains_key(crate::codec::lossy_text(request_of(line)->Fetch_0)),
        !m2.contains_key(crate::codec::lossy_text(request_of(line)->Fetch_0)),
    ensures
        response_of(m1, line) == zlib_of(not_found_text()),
        response_of(m1, line) == response_of(m2, line),
        next_store(m1, request_of(line)) == m1,
{
}

/// `BYE` on a session with no unfinished line is answered with the
/// compressed farewell and ends the session, leaving the store as it was.
pub proof fn lemma_bye(m: Map<Seq<char>, Seq<u8>>)
    ensures
        session_step(m, framed(bye_word())) == (
            m,
            zlib_of(farewell_text()),
            true,
            Seq::<u8>::empty(),
        ),
{
    lemma_keywords();
    let s = bye_word();
    assert(s.subrange(0, 3) =~= s);
    lemma_scan_last_word(s, 0, s);
    assert(words(s) == seq![s]);
    assert(request_of(s) == Request::Bye);
    lemma_one_line(m, s);
}

/// A value typed in the client as `SET key value` and fetched with
/// `GET key`, from the same connection or another, comes back as the zlib
/// stream of the typed value: decompressing it gives the value again.
pub proof fn lemma_client_round_trip(m: Map<Seq<char>, Seq<u8>>, key: Seq<u8>, value: Seq<u8>)
    requires
        is_word(key),
        is_word(value),
        zlib_of(value).len() > 0,
    ensures
        ({
            let first = session_step(m, request_line(spaced(spaced(set_word(), key), value)));
            let second = session_step(first.0, request_line(spaced(get_word(), key)));
            &&& first.1 == zlib_of(ok_text())
            &&& second.1 == zlib_of(value)
        }),
{
    lemma_keywords();
    lemma_words_three(set_word(), key, value);
    lemma_words_two(get_word(), key);
    assert(request_line(spaced(spaced(set_word(), key), value)) =~= framed(set_line(key, value)));
    assert(request_line(spaced(get_word(), key)) =~= framed(get_line(key)));
    lemma_set_then_get(m, key, value);
}

} // verus!
