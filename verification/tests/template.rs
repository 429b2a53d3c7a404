use template_scan::parse::{Block, Special};
use template_scan::template::{BoundedSink, SinkError};
use template_scan::ParsedTemplate;

#[test]
fn it_works() {
    let mut c: Vec<u8> = Vec::new();
    let t = ParsedTemplate::new(b"Hello {{ world }}").unwrap();
    t.instantiate(&mut c).unwrap();
    assert_eq!(std::str::from_utf8(&c).unwrap(), "Hello world");
}

#[test]
fn empty_template_reconstructs_to_nothing() {
    let t = ParsedTemplate::new(b"").unwrap();
    let mut out: Vec<u8> = Vec::new();
    t.instantiate(&mut out).unwrap();
    assert_eq!(out, b"");
}

#[test]
fn instantiate_appends_to_the_sink() {
    let t = ParsedTemplate::new(b"{# note #}x{% if %}").unwrap();
    let mut out: Vec<u8> = vec![b'>'];
    t.instantiate(&mut out).unwrap();
    assert_eq!(out, b">notexif");
}

#[test]
fn malformed_templates_yield_no_value() {
    assert!(ParsedTemplate::new(b"}} hi").is_none());
    assert!(ParsedTemplate::new(b"{{ abc").is_none());
}

#[test]
fn multi_line_template_spans() {
    let t = ParsedTemplate::new(b"{{\n\n}}\n\nfoo").unwrap();
    let blocks = t.blocks();
    assert_eq!(blocks.len(), 2);
    assert_eq!(blocks[0].line_number, 1);
    match blocks[0].block {
        Block::Special(Special::TagCurly(x)) => assert_eq!(x, b""),
        _ => panic!("first span should be a curly tag"),
    }
    assert_eq!(blocks[1].line_number, 3);
    match blocks[1].block {
        Block::Plain(x) => assert_eq!(x, b"\n\nfoo"),
        _ => panic!("second span should be plain text"),
    }
    let mut out: Vec<u8> = Vec::new();
    t.instantiate(&mut out).unwrap();
    assert_eq!(out, b"\n\nfoo");
}

#[test]
fn describe_decodes_valid_utf8() {
    assert_eq!(Special::TagPercent(b"hi").describe(), "TagPercent(Ok(\"hi\"))");
    assert_eq!(Special::TagCurly(b"hello").describe(), "TagCurly(Ok(\"hello\"))");
    assert_eq!(Special::TagHash(b"").describe(), "TagHash(Ok(\"\"))");
    assert_eq!(Block::Plain(b"text").describe(), "Plain(Ok(\"text\"))");
    assert_eq!(
        Block::Special(Special::TagCurly(b"a b")).describe(),
        "TagCurly(Ok(\"a b\"))"
    );
}

#[test]
fn describe_flags_invalid_utf8() {
    let bad: &[u8] = &[0xff, 0x41];
    let s = Block::Plain(bad).describe();
    assert!(s.starts_with("Plain(Err("));
}

#[test]
fn sink_failure_aborts_the_pass() {
    // "Hello {{ world }}" renders as "Hello " then "world"; a sink that
    // holds 7 bytes takes the first write and refuses the second, and the
    // first failure ends the pass with the sink's own error.
    let t = ParsedTemplate::new(b"Hello {{ world }}").unwrap();
    let mut sink = BoundedSink::new(7);
    assert_eq!(t.instantiate(&mut sink), Err(SinkError));
    assert_eq!(sink.into_bytes(), b"Hello ");

    let mut tiny = BoundedSink::new(3);
    assert_eq!(t.instantiate(&mut tiny), Err(SinkError));
    assert_eq!(tiny.into_bytes(), b"");
}

#[test]
fn bounded_sink_with_room_takes_everything() {
    let t = ParsedTemplate::new(b"Hello {{ world }}").unwrap();
    let mut sink = BoundedSink::new(11);
    assert_eq!(t.instantiate(&mut sink), Ok(()));
    assert_eq!(sink.into_bytes(), b"Hello world");
}
