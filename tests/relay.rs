use ollama_relay::accumulate::Accumulator;
use ollama_relay::events::{connection_error, parse_error, status_error, StreamEvent};
use ollama_relay::lines::LineBuffer;
use ollama_relay::prompt::{
    compose_prompt, decode_path_prompt, generate_url, tags_url, FileContext, GenerationRequest,
};
use ollama_relay::relay::{status_accepted, BackendRecord, Relay};

fn feed_all(chunks: &[&[u8]]) -> Vec<Vec<u8>> {
    let mut buf = LineBuffer::new();
    let mut out = Vec::new();
    for c in chunks {
        out.extend(buf.feed(c));
    }
    out
}

fn decode(line: &str) -> Result<BackendRecord, String> {
    match serde_json::from_str::<serde_json::Value>(line) {
        Ok(v) => Ok(BackendRecord {
            response: v.get("response").and_then(|r| r.as_str()).map(|s| s.to_string()),
            done: v.get("done").and_then(|d| d.as_bool()),
        }),
        Err(e) => Err(e.to_string()),
    }
}

fn run(relay: &mut Relay, chunks: &[&[u8]]) -> Vec<String> {
    let mut data = Vec::new();
    for c in chunks {
        for line in relay.on_chunk(c) {
            for e in relay.on_record(decode(&line)) {
                data.push(e.data());
            }
        }
    }
    for e in relay.on_end() {
        data.push(e.data());
    }
    data
}

fn text_of(e: &StreamEvent) -> String {
    match e {
        StreamEvent::Text(s) => s.clone(),
        _ => panic!("not a text event"),
    }
}

#[test]
fn lines_same_for_every_partition() {
    let whole: &[u8] = b"alpha\nbeta\n\ngamma\n";
    let expected = vec![b"alpha".to_vec(), b"beta".to_vec(), b"gamma".to_vec()];
    assert_eq!(feed_all(&[whole]), expected);
    for cut in 0..whole.len() {
        assert_eq!(feed_all(&[&whole[..cut], &whole[cut..]]), expected);
    }
    let bytes: Vec<&[u8]> = whole.chunks(1).collect();
    assert_eq!(feed_all(&bytes), expected);
}

#[test]
fn lines_skip_empty_records() {
    assert_eq!(feed_all(&[b"\n\n\na\n\n"]), vec![b"a".to_vec()]);
    assert!(feed_all(&[b"\n"]).is_empty());
}

#[test]
fn lines_keep_partial_record() {
    let mut buf = LineBuffer::new();
    assert!(buf.feed(b"abc").is_empty());
    assert_eq!(buf.pending, b"abc".to_vec());
    assert_eq!(buf.feed(b"def\ngh"), vec![b"abcdef".to_vec()]);
    assert_eq!(buf.pending, b"gh".to_vec());
    assert!(buf.feed(b"").is_empty());
    assert_eq!(buf.pending, b"gh".to_vec());
}

#[test]
fn accumulate_concatenates_fragments() {
    let mut acc = Accumulator::new();
    assert_eq!(acc.append("Hel"), "Hel");
    assert_eq!(acc.append("lo"), "Hello");
    assert_eq!(acc.append(""), "Hello");
    assert_eq!(acc.text, "Hello");
}

#[test]
fn accumulate_threshold_is_strict() {
    let mut acc = Accumulator::new();
    let big = "a".repeat(99998);
    assert_eq!(acc.append(&big).len(), 99998);
    assert_eq!(acc.append("b").len(), 99999);
    assert_eq!(acc.append("c"), "c");
    assert_eq!(acc.text.len(), 100000);
    assert_eq!(acc.append("d"), "d");
}

#[test]
fn accumulate_at_limit_sends_fragment_only() {
    let mut acc = Accumulator::new();
    acc.append(&"x".repeat(100000));
    assert_eq!(acc.append("tail"), "tail");
    assert_eq!(acc.text.len(), 100004);
}

#[test]
fn accumulate_counts_utf8_bytes() {
    let mut acc = Accumulator::new();
    let wide = "é".repeat(49999);
    assert_eq!(acc.append(&wide).len(), 99998);
    assert_eq!(acc.append("é"), "é");
}

#[test]
fn end_to_end_example() {
    let mut relay = Relay::new();
    let data = run(
        &mut relay,
        &[b"{\"response\":\"Hel\"}\n{\"respon", b"se\":\"lo\"}\n{\"done\":true}\n"],
    );
    assert_eq!(data, vec!["Hel", "Hello", "[DONE]"]);
}

#[test]
fn bad_record_reports_and_continues() {
    let mut relay = Relay::new();
    let data = run(&mut relay, &[b"not json\n{\"response\":\"ok\"}\n"]);
    assert_eq!(data.len(), 3);
    assert!(data[0].starts_with("Error parsing JSON: "));
    assert_eq!(data[1], "ok");
    assert_eq!(data[2], "[DONE]");
}

#[test]
fn parse_error_event_text() {
    let out = {
        let mut relay = Relay::new();
        relay.on_record(Err("expected value".to_string()))
    };
    assert_eq!(out.len(), 1);
    assert_eq!(out[0].data(), "Error parsing JSON: expected value");
    assert_eq!(parse_error("x").data(), "Error parsing JSON: x");
}

#[test]
fn done_stops_the_stream() {
    let mut relay = Relay::new();
    let data = run(
        &mut relay,
        &[b"{\"response\":\"a\",\"done\":true}\n{\"response\":\"b\"}\n", b"{\"response\":\"c\"}\n"],
    );
    assert_eq!(data, vec!["a", "[DONE]"]);
    assert!(relay.is_finished());
    assert!(relay.on_chunk(b"{\"response\":\"d\"}\n").is_empty());
    assert!(relay.on_end().is_empty());
}

#[test]
fn done_without_text() {
    let mut relay = Relay::new();
    let out = relay.on_record(Ok(BackendRecord { response: None, done: Some(true) }));
    assert_eq!(out.len(), 1);
    assert!(out[0].is_done());
    let more = relay.on_record(Ok(BackendRecord { response: Some("z".to_string()), done: None }));
    assert!(more.is_empty());
}

#[test]
fn done_false_keeps_streaming() {
    let mut relay = Relay::new();
    let out = relay.on_record(Ok(BackendRecord { response: Some("a".to_string()), done: Some(false) }));
    assert_eq!(out.len(), 1);
    assert_eq!(text_of(&out[0]), "a");
    assert!(!relay.is_finished());
}

#[test]
fn stream_end_without_done() {
    let mut relay = Relay::new();
    let data = run(&mut relay, &[b"{\"response\":\"a\"}\n{\"response\":\"trunc"]);
    assert_eq!(data, vec!["a", "[DONE]"]);
}

#[test]
fn connection_failure_events() {
    let mut relay = Relay::new();
    let out = relay.on_connect_error("refused");
    let data: Vec<String> = out.iter().map(|e| e.data()).collect();
    assert_eq!(data, vec!["Error: refused", "[DONE]"]);
    assert!(relay.is_finished());
    assert_eq!(connection_error("x").data(), "Error: x");
}

#[test]
fn status_failure_events() {
    let mut relay = Relay::new();
    let out = relay.on_status_error("404 Not Found", Some("model missing"));
    let data: Vec<String> = out.iter().map(|e| e.data()).collect();
    assert_eq!(data, vec!["Error: HTTP 404 Not Found - model missing", "[DONE]"]);
    assert_eq!(
        status_error("500 Internal Server Error", None).data(),
        "Error: HTTP 500 Internal Server Error - Unknown error"
    );
}

#[test]
fn status_checking() {
    assert!(status_accepted(true, 200));
    assert!(status_accepted(true, 299));
    assert!(!status_accepted(true, 300));
    assert!(!status_accepted(true, 199));
    assert!(!status_accepted(true, 404));
    assert!(status_accepted(false, 404));
}

#[test]
fn invalid_utf8_is_substituted() {
    let mut relay = Relay::new();
    let lines = relay.on_chunk(b"a\xffb\n");
    assert_eq!(lines, vec!["a\u{fffd}b".to_string()]);
}

#[test]
fn file_composition_example() {
    let files = vec![FileContext { name: "a.py".to_string(), content: "x=1".to_string() }];
    assert_eq!(
        compose_prompt(&files, "explain"),
        "I have the following files for context:\n\nFile: a.py\n```\nx=1\n```\n\n\n\nBased on these files, explain"
    );
}

#[test]
fn file_composition_keeps_order() {
    let files = vec![
        FileContext { name: "b".to_string(), content: "2".to_string() },
        FileContext { name: "a".to_string(), content: "1".to_string() },
    ];
    let req = GenerationRequest::with_files("m", &files, "q");
    assert_eq!(req.model, "m");
    assert_eq!(
        req.prompt,
        "I have the following files for context:\n\nFile: b\n```\n2\n```\n\nFile: a\n```\n1\n```\n\n\n\nBased on these files, q"
    );
}

#[test]
fn no_files_leaves_prompt() {
    assert_eq!(compose_prompt(&Vec::new(), "explain"), "explain");
}

#[test]
fn path_prompt_decoding() {
    assert_eq!(decode_path_prompt("hello%20world"), "hello world");
    assert_eq!(decode_path_prompt("a+b"), "a+b");
    assert_eq!(decode_path_prompt("caf%C3%A9"), "café");
    assert_eq!(decode_path_prompt("bad%FF"), "bad%FF");
    let req = GenerationRequest::from_path("llama", "why%3F");
    assert_eq!(req.prompt, "why?");
    assert_eq!(req.model, "llama");
}

#[test]
fn endpoint_urls() {
    assert_eq!(generate_url("http://127.0.0.1:11434"), "http://127.0.0.1:11434/api/generate");
    assert_eq!(tags_url("http://h"), "http://h/api/tags");
}
