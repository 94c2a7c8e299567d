use hal::codec::{decode_request, decode_response, encode_request, encode_response,
    encode_response_line};
use hal::common::{TextGenLatency, TextGenRequest, TextGenResponse};

fn same_record(a: &TextGenResponse, b: &TextGenResponse) -> bool {
    a.text == b.text && a.tokens == b.tokens && a.latency.load == b.latency.load
        && a.latency.generation == b.latency.generation && a.done == b.done
}

#[test]
fn encode_known_record_exactly() {
    let r = TextGenResponse::new(
        String::from("ab"),
        2,
        TextGenLatency::new(1_500_000, 250_000),
        false,
    );
    let line = encode_response(&r);
    assert_eq!(
        line,
        "{\"text\":\"ab\",\"tokens\":2,\"latency\":{\"load\":1.500000,\"generation\":0.250000},\"done\":false}"
    );
}

#[test]
fn encode_line_appends_newline() {
    let r = TextGenResponse::new(String::new(), 0, TextGenLatency::new(0, 0), true);
    let line = encode_response_line(&r);
    assert_eq!(
        line,
        "{\"text\":\"\",\"tokens\":0,\"latency\":{\"load\":0.000000,\"generation\":0.000000},\"done\":true}\n"
    );
}

#[test]
fn round_trip_plain_record() {
    let r = TextGenResponse::new(
        String::from("hello world"),
        17,
        TextGenLatency::new(2_000_001, 999_999),
        false,
    );
    let decoded = decode_response(&encode_response(&r)).expect("round trip");
    assert!(same_record(&r, &decoded));
}

#[test]
fn round_trip_empty_text_and_done() {
    let r = TextGenResponse::new(String::new(), 0, TextGenLatency::new(0, 0), true);
    let decoded = decode_response(&encode_response(&r)).expect("round trip");
    assert!(same_record(&r, &decoded));
}

#[test]
fn round_trip_escaped_characters() {
    let r = TextGenResponse::new(
        String::from("a\"b\\c\nd\te\u{1}f"),
        5,
        TextGenLatency::new(123_456, 7),
        false,
    );
    let encoded = encode_response(&r);
    assert!(encoded.contains("a\\\"b\\\\c\\u000ad\\u0009e\\u0001f"));
    let decoded = decode_response(&encoded).expect("round trip");
    assert!(same_record(&r, &decoded));
}

#[test]
fn round_trip_non_ascii_text() {
    let r = TextGenResponse::new(
        String::from("héllo ✓"),
        1,
        TextGenLatency::new(1, 2),
        false,
    );
    let decoded = decode_response(&encode_response(&r)).expect("round trip");
    assert!(same_record(&r, &decoded));
}

#[test]
fn decode_rejects_malformed_records() {
    assert!(decode_response("").is_none());
    assert!(decode_response("{}").is_none());
    assert!(decode_response("{\"text\":\"ab\"}").is_none());
    assert!(decode_response(
        "{\"text\":\"ab\",\"tokens\":x,\"latency\":{\"load\":0.000000,\"generation\":0.000000},\"done\":false}"
    ).is_none());
    assert!(decode_response(
        "{\"text\":\"ab\",\"tokens\":2,\"latency\":{\"load\":0.0,\"generation\":0.000000},\"done\":false}"
    ).is_none());
    assert!(decode_response(
        "{\"text\":\"ab\",\"tokens\":2,\"latency\":{\"load\":0.000000,\"generation\":0.000000},\"done\":maybe}"
    ).is_none());
    assert!(decode_response(
        "{\"text\":\"ab\",\"tokens\":2,\"latency\":{\"load\":0.000000,\"generation\":0.000000},\"done\":false} "
    ).is_none());
}

#[test]
fn decode_accepts_wire_shaped_record() {
    let decoded = decode_response(
        "{\"text\":\"hi\",\"tokens\":3,\"latency\":{\"load\":0.500000,\"generation\":1.250000},\"done\":true}"
    ).expect("valid record");
    assert_eq!(decoded.text, "hi");
    assert_eq!(decoded.tokens, 3);
    assert_eq!(decoded.latency.load, 500_000);
    assert_eq!(decoded.latency.generation, 1_250_000);
    assert!(decoded.done);
}

#[test]
fn round_trip_largest_values() {
    let r = TextGenResponse::new(
        String::new(),
        usize::MAX,
        hal::common::TextGenLatency::new(u64::MAX, 1),
        true,
    );
    let decoded = decode_response(&encode_response(&r)).expect("round trip");
    assert!(same_record(&r, &decoded));
}

#[test]
fn decode_rejects_overflowing_counters() {
    // One above what a microsecond counter can hold.
    assert!(decode_response(
        "{\"text\":\"\",\"tokens\":1,\"latency\":{\"load\":18446744073709.551616,\"generation\":0.000000},\"done\":false}"
    ).is_none());
    // One above what a token counter can hold.
    assert!(decode_response(
        "{\"text\":\"\",\"tokens\":18446744073709551616,\"latency\":{\"load\":0.000000,\"generation\":0.000000},\"done\":false}"
    ).is_none());
}

#[test]
fn request_round_trip() {
    let req = TextGenRequest::new(String::from("tell me a \"story\"\n"));
    let encoded = encode_request(&req);
    let decoded = decode_request(&encoded).expect("round trip");
    assert_eq!(decoded.prompt, req.prompt);
}

#[test]
fn request_encoding_exact() {
    let req = TextGenRequest::new(String::from("hi"));
    assert_eq!(encode_request(&req), "{\"prompt\":\"hi\"}");
    assert!(decode_request("{\"prompt\":\"hi\"").is_none());
    assert!(decode_request("").is_none());
}
