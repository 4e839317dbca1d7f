use flate2::read::ZlibDecoder;
use flate2::write::ZlibEncoder;
use flate2::Compression;
use kvserver::client::request_for;
use kvserver::server::{source_of, Server, Source, LISTENER};
use std::io::{Read, Write};

fn inflate(bytes: &[u8]) -> String {
    let mut decoder = ZlibDecoder::new(bytes);
    let mut text = String::new();
    decoder.read_to_string(&mut text).unwrap();
    text
}

fn deflate(bytes: &[u8]) -> Vec<u8> {
    let mut encoder = ZlibEncoder::new(Vec::new(), Compression::default());
    encoder.write_all(bytes).unwrap();
    encoder.finish().unwrap()
}

fn open(server: &mut Server) -> usize {
    server.accept().unwrap()
}

#[test]
fn set_color_red_then_get_from_another_connection() {
    let mut server = Server::new();
    let a = open(&mut server);
    let b = open(&mut server);
    let (line, quit) = request_for(b"SET color red");
    assert!(!quit);
    let expected_line = format!("SET color {}\n", hex::encode(deflate(b"red")));
    assert_eq!(line, expected_line.into_bytes());
    let step = server.receive(a, &line);
    assert!(!step.close);
    assert_eq!(inflate(&step.output), "OK\n");
    let step = server.receive(b, b"GET color\n");
    assert!(!step.close);
    assert_eq!(step.output, deflate(b"red"));
    assert_eq!(inflate(&step.output), "red");
    let step = server.receive(a, b"GET color\n");
    assert_eq!(inflate(&step.output), "red");
}

#[test]
fn get_missing_is_not_found_every_time() {
    let mut server = Server::new();
    let a = open(&mut server);
    let first = server.receive(a, b"GET missing\n");
    assert_eq!(inflate(&first.output), "NOT FOUND\n");
    let second = server.receive(a, b"GET missing\n");
    assert_eq!(first.output, second.output);
    assert!(!first.close && !second.close);
}

#[test]
fn unparseable_line_is_error() {
    let mut server = Server::new();
    let a = open(&mut server);
    let step = server.receive(a, b"FOO BAR\n");
    assert_eq!(inflate(&step.output), "ERROR\n");
    assert!(!step.close);
    let step = server.receive(a, b"GET\n");
    assert_eq!(inflate(&step.output), "ERROR\n");
    let step = server.receive(a, b"SET a\n");
    assert_eq!(inflate(&step.output), "ERROR\n");
    let step = server.receive(a, b"\n");
    assert_eq!(inflate(&step.output), "ERROR\n");
}

#[test]
fn bye_answers_farewell_and_closes() {
    let mut server = Server::new();
    let a = open(&mut server);
    let step = server.receive(a, b"BYE\n");
    assert!(step.close);
    assert_eq!(inflate(&step.output), "Goodbye!\n");
    assert!(server.close(a));
    assert!(!server.is_live(a));
    let after = server.receive(a, b"GET color\n");
    assert!(after.output.is_empty());
    assert!(!after.close);
    assert!(!server.close(a));
}

#[test]
fn bye_stops_the_remaining_lines() {
    let mut server = Server::new();
    let a = open(&mut server);
    let step = server.receive(a, b"BYE\nSET k 00\n");
    assert!(step.close);
    assert_eq!(inflate(&step.output), "Goodbye!\n");
    let b = open(&mut server);
    let step = server.receive(b, b"GET k\n");
    assert_eq!(inflate(&step.output), "NOT FOUND\n");
}

#[test]
fn interleaved_connections_share_the_store_only() {
    let mut server = Server::new();
    let a = open(&mut server);
    let b = open(&mut server);
    let c = open(&mut server);
    let payload = hex::encode(deflate(b"one"));
    let step = server.receive(a, format!("SET k {}", payload).as_bytes());
    assert!(step.output.is_empty());
    let step = server.receive(b, b"GET k\n");
    assert_eq!(inflate(&step.output), "NOT FOUND\n");
    let step = server.receive(a, b"\n");
    assert_eq!(inflate(&step.output), "OK\n");
    let step = server.receive(c, b"GET k\n");
    assert_eq!(inflate(&step.output), "one");
    let step = server.receive(b, b"GET k\n");
    assert_eq!(inflate(&step.output), "one");
}

#[test]
fn several_lines_in_one_read_are_answered_in_order() {
    let mut server = Server::new();
    let a = open(&mut server);
    let payload = hex::encode(deflate(b"v"));
    let data = format!("SET x {}\nGET x\nGET y\n", payload);
    let step = server.receive(a, data.as_bytes());
    let mut expected = deflate(b"OK\n");
    expected.extend(deflate(b"v"));
    expected.extend(deflate(b"NOT FOUND\n"));
    assert_eq!(step.output, expected);
}

#[test]
fn line_split_across_reads_is_reassembled() {
    let mut server = Server::new();
    let a = open(&mut server);
    assert!(server.receive(a, b"GE").output.is_empty());
    assert!(server.receive(a, b"T nothing").output.is_empty());
    let step = server.receive(a, b"\r\n");
    assert_eq!(inflate(&step.output), "NOT FOUND\n");
}

#[test]
fn malformed_hex_stores_an_empty_value() {
    let mut server = Server::new();
    let a = open(&mut server);
    let step = server.receive(a, b"SET k zz\n");
    assert_eq!(inflate(&step.output), "OK\n");
    let step = server.receive(a, b"GET k\n");
    assert!(step.output.is_empty());
    let step = server.receive(a, b"SET k abc\n");
    assert_eq!(inflate(&step.output), "OK\n");
    let step = server.receive(a, b"GET k\n");
    assert!(step.output.is_empty());
}

#[test]
fn last_write_wins() {
    let mut server = Server::new();
    let a = open(&mut server);
    server.receive(a, b"SET k 0102\n");
    server.receive(a, b"SET k ABcd\n");
    let step = server.receive(a, b"GET k\n");
    assert_eq!(step.output, vec![0xab, 0xcd]);
}

#[test]
fn zero_length_read_means_peer_closed() {
    let mut server = Server::new();
    let a = open(&mut server);
    let step = server.receive(a, b"");
    assert!(step.close);
    assert!(step.output.is_empty());
    assert!(server.is_live(a));
}

#[test]
fn unknown_token_is_ignored() {
    let mut server = Server::new();
    let step = server.receive(7, b"GET k\n");
    assert!(step.output.is_empty());
    assert!(!step.close);
}

#[test]
fn tokens_are_fresh_after_close() {
    let mut server = Server::new();
    let a = open(&mut server);
    let b = open(&mut server);
    assert_eq!(a, 1);
    assert_eq!(b, 2);
    assert!(server.close(a));
    let c = open(&mut server);
    assert_ne!(c, a);
    assert_ne!(c, b);
    assert_ne!(c, LISTENER);
    assert!(server.is_live(b) && server.is_live(c) && !server.is_live(a));
}

#[test]
fn listener_token_is_told_apart() {
    assert!(matches!(source_of(LISTENER), Source::Listener));
    assert!(matches!(source_of(5), Source::Client(5)));
}
