use dcss_bot::framer::{Framer, TextAssembler};
use dcss_bot::inflate::MessageStream;
use dcss_bot::json::{json_eq, parse_value_at, to_text, Json};

fn chars(text: &str) -> Vec<char> {
    text.chars().collect()
}

fn parse(text: &str) -> Json {
    let cs = chars(text);
    let (v, _) = parse_value_at(&cs, 0).expect("value should parse");
    v
}

fn msg_of(v: &Json) -> String {
    dcss_bot::protocol::GameMessage::of_json(v).expect("message").msg
}

#[test]
fn parse_literals() {
    let cs = chars("null");
    let (v, j) = parse_value_at(&cs, 0).unwrap();
    assert!(matches!(v, Json::Null));
    assert_eq!(j, 4);
    let cs = chars("true");
    assert!(matches!(parse_value_at(&cs, 0).unwrap().0, Json::Bool(true)));
    let cs = chars("false");
    assert!(matches!(parse_value_at(&cs, 0).unwrap().0, Json::Bool(false)));
}

#[test]
fn parse_nested() {
    let v = parse("{\"a\":[1,2,{\"b\":\"c\"}],\"d\":null}");
    match v {
        Json::Obj(ms) => {
            assert_eq!(ms.len(), 2);
            assert_eq!(ms[0].0, "a");
            match &ms[0].1 {
                Json::Arr(items) => assert_eq!(items.len(), 3),
                _ => panic!("expected array"),
            }
        },
        _ => panic!("expected object"),
    }
}

#[test]
fn parse_skips_inner_whitespace() {
    let v = parse("{ \"a\" :\t[ 1 ,\n2 ] }");
    match v {
        Json::Obj(ms) => match &ms[0].1 {
            Json::Arr(items) => assert_eq!(items.len(), 2),
            _ => panic!("expected array"),
        },
        _ => panic!("expected object"),
    }
}

#[test]
fn parse_escapes() {
    let v = parse("\"a\\\"b\\\\c\\nd\\u0041\"");
    match v {
        Json::Str(s) => assert_eq!(s, "a\"b\\c\nd\u{0041}"),
        _ => panic!("expected string"),
    }
}

#[test]
fn parse_surrogate_pair() {
    let v = parse("\"\\ud83d\\ude00\"");
    match v {
        Json::Str(s) => assert_eq!(s, "\u{1F600}"),
        _ => panic!("expected string"),
    }
}

#[test]
fn parse_number_token() {
    let cs = chars("-12.5e3 ");
    let (v, j) = parse_value_at(&cs, 0).unwrap();
    match v {
        Json::Num(t) => assert_eq!(t, "-12.5e3"),
        _ => panic!("expected number"),
    }
    assert_eq!(j, 7);
}

#[test]
fn parse_rejects_bad_number() {
    let cs = chars("1.2.3 ");
    assert!(parse_value_at(&cs, 0).is_none());
    let cs = chars("01 ");
    assert!(parse_value_at(&cs, 0).is_none());
}

#[test]
fn parse_incomplete_number_waits() {
    // a number touching the buffer's end could still grow
    let cs = chars("123");
    assert!(parse_value_at(&cs, 0).is_none());
    let cs = chars("123 ");
    assert!(parse_value_at(&cs, 0).is_some());
}

#[test]
fn framer_extracts_in_order() {
    let mut f = Framer::new();
    let vals = f.push_text("{\"msg\":\"a\"}{\"msg\":\"b\"} {\"msg\":\"c\"}");
    assert_eq!(vals.len(), 3);
    assert_eq!(msg_of(&vals[0]), "a");
    assert_eq!(msg_of(&vals[1]), "b");
    assert_eq!(msg_of(&vals[2]), "c");
}

#[test]
fn framer_keeps_partial_value() {
    let mut f = Framer::new();
    let vals = f.push_text("{\"msg\":\"a\"}{\"ms");
    assert_eq!(vals.len(), 1);
    let vals = f.push_text("g\":\"b\"}");
    assert_eq!(vals.len(), 1);
    assert_eq!(msg_of(&vals[0]), "b");
}

#[test]
fn framer_split_everywhere() {
    // the round trip must not depend on where the stream was cut
    let text = "{\"msg\":\"a\",\"n\":[1,2,3]}[{\"msg\":\"b\"}] \"plain\" null{\"t\":\"\\u00e9\"}";
    let mut whole = Framer::new();
    let expected = whole.push_text(text);
    assert_eq!(expected.len(), 5);
    let n = text.len();
    for cut in 0..=n {
        if !text.is_char_boundary(cut) {
            continue;
        }
        let mut f = Framer::new();
        let mut got = f.push_text(&text[..cut]);
        got.extend(f.push_text(&text[cut..]));
        assert_eq!(got.len(), expected.len(), "cut at {}", cut);
        for (g, e) in got.iter().zip(expected.iter()) {
            assert!(json_eq(g, e), "cut at {}", cut);
        }
    }
}

#[test]
fn assembler_holds_split_utf8() {
    let bytes: Vec<u8> = "\"caf\u{00e9}\"".bytes().collect();
    let (head, tail) = bytes.split_at(bytes.len() - 2);
    // the two-byte character is cut in half: nothing comes out yet
    let mut a = TextAssembler::new();
    assert!(a.push_bytes(&head.to_vec()).is_none());
    let t = a.push_bytes(&tail.to_vec()).expect("now valid");
    assert_eq!(t, "\"caf\u{00e9}\"");
}

fn compress_frame(c: &mut flate2::Compress, text: &str) -> Vec<u8> {
    let mut out = vec![0u8; 65536];
    let before = c.total_out() as usize;
    c.compress(text.as_bytes(), &mut out, flate2::FlushCompress::Sync)
        .expect("compress");
    let produced = c.total_out() as usize - before;
    let mut frame = out[..produced].to_vec();
    // the peer strips the sync-flush marker; the client puts it back
    assert_eq!(&frame[frame.len() - 4..], &[0x00, 0x00, 0xff, 0xff]);
    frame.truncate(frame.len() - 4);
    frame
}

#[test]
fn stream_reconstructs_values_across_compressed_frames() {
    // one JSON value split across two separately flushed frames, preceded
    // and followed by whole values
    let part_a = "{\"msg\":\"first\"}{\"msg\":\"sec";
    let part_b = "ond\"}{\"msg\":\"third\"}";
    let mut c = flate2::Compress::new(flate2::Compression::default(), false);
    let f1 = compress_frame(&mut c, part_a);
    let f2 = compress_frame(&mut c, part_b);

    let mut stream = MessageStream::new();
    let v1 = stream.feed_frame(&f1).expect("frame one");
    assert_eq!(v1.len(), 1);
    assert_eq!(msg_of(&v1[0]), "first");
    let v2 = stream.feed_frame(&f2).expect("frame two");
    assert_eq!(v2.len(), 2);
    assert_eq!(msg_of(&v2[0]), "second");
    assert_eq!(msg_of(&v2[1]), "third");
}

#[test]
fn serializer_round_trips_through_the_parser() {
    for text in [
        "{\"msg\":\"a\",\"n\":[1,2.5,-3e2],\"t\":true,\"z\":null}",
        "[[],{},\"\",\"a b\"]",
        "{\"q\":\"say \\\"hi\\\"\",\"nl\":\"a\\nb\"}",
    ] {
        let v = parse(text);
        let written = to_text(&v);
        let again = parse(&format!("{} ", written));
        assert!(json_eq(&v, &again), "{}", text);
    }
}

#[test]
fn serializer_writes_canonical_text() {
    let v = parse("{ \"a\" : [ 1 , \"x\" ] }");
    assert_eq!(to_text(&v), "{\"a\":[1,\"x\"]}");
}

#[test]
fn inflater_yields_exactly_the_original_bytes() {
    // the run's yield is the peer's data, no more and no less, across two
    // frames sharing one dictionary
    let mut c = flate2::Compress::new(flate2::Compression::default(), false);
    let f1 = compress_frame(&mut c, "hello, ");
    let f2 = compress_frame(&mut c, "hello again");
    let mut inflater = dcss_bot::inflate::Inflater::new();
    let mut out: Vec<u8> = Vec::new();
    inflater.feed(&f1, &mut out).expect("frame one");
    assert_eq!(out, b"hello, ".to_vec());
    inflater.feed(&f2, &mut out).expect("frame two");
    assert_eq!(out, b"hello, hello again".to_vec());
}

#[test]
fn stream_survives_garbage_frame() {
    let mut stream = MessageStream::new();
    let garbage: Vec<u8> = vec![0xde, 0xad, 0xbe, 0xef, 0x01, 0x02, 0x03];
    assert!(stream.feed_frame(&garbage).is_err());
}
