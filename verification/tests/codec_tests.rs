use http_whatever::codec;
use http_whatever::HttpWhatever;

#[test]
fn decode_plain_message() {
    let (message, domain, status) = codec::decode("just a message");
    assert_eq!(message, "just a message");
    assert_eq!(domain, "Internal");
    assert_eq!(status, 500);
}

#[test]
fn decode_empty_input() {
    let (message, domain, status) = codec::decode("");
    assert_eq!(message, "<unknown>");
    assert_eq!(domain, "Internal");
    assert_eq!(status, 500);
}

#[test]
fn decode_domain_and_message() {
    let (message, domain, status) = codec::decode("Input:oops");
    assert_eq!(message, "oops");
    assert_eq!(domain, "Input");
    assert_eq!(status, 500);
}

#[test]
fn decode_three_fields() {
    let (message, domain, status) = codec::decode("404:Db:missing row");
    assert_eq!(message, "missing row");
    assert_eq!(domain, "Db");
    assert_eq!(status, 404);
}

#[test]
fn decode_invalid_status_token() {
    let (message, domain, status) = codec::decode("4xx:Input:oops");
    assert_eq!(message, "oops");
    assert_eq!(domain, "Input");
    assert_eq!(status, 500);
}

#[test]
fn decode_short_status_token() {
    let (message, domain, status) = codec::decode("42:Input:oops");
    assert_eq!(message, "oops");
    assert_eq!(domain, "Input");
    assert_eq!(status, 500);
}

#[test]
fn decode_message_keeps_extra_colons() {
    let (message, domain, status) = codec::decode("400:Input:a:b:c");
    assert_eq!(message, "a:b:c");
    assert_eq!(domain, "Input");
    assert_eq!(status, 400);
}

#[test]
fn decode_explicitly_empty_domain() {
    let (message, domain, status) = codec::decode("500::msg");
    assert_eq!(message, "msg");
    assert_eq!(domain, "");
    assert_eq!(status, 500);
}

#[test]
fn encode_three_fields() {
    let encoded = codec::encode(400, "Input", "That was NOT a usize!");
    assert_eq!(encoded, "400:Input:That was NOT a usize!");
    let (message, domain, status) = codec::decode(&encoded);
    assert_eq!(message, "That was NOT a usize!");
    assert_eq!(domain, "Input");
    assert_eq!(status, 400);
}

#[test]
fn encode_default_status() {
    assert_eq!(codec::encode_with_domain("Db", "gone"), "500:Db:gone");
}

#[test]
fn encode_default_status_and_domain() {
    assert_eq!(codec::encode_message("gone"), "500:unknown:gone");
}

fn assert_same_decoding(x: &str) {
    let (message, domain, status) = codec::decode(x);
    let encoded = codec::encode(status, &domain, &message);
    let again = codec::decode(&encoded);
    assert_eq!(again.0, message);
    assert_eq!(again.1, domain);
    assert_eq!(again.2, status);
}

#[test]
fn round_trip_idempotence() {
    assert_same_decoding("");
    assert_same_decoding("plain");
    assert_same_decoding("Input:oops");
    assert_same_decoding("403:Input:nope");
    assert_same_decoding("weird::::string");
    assert_same_decoding(":::");
    assert_same_decoding("999:x:y");
    assert_same_decoding("bad token:Domain:msg");
}

#[test]
fn display_line() {
    let err = HttpWhatever::new("403:Input:nope");
    assert_eq!(err.display(), "nope: (Domain: Input, HTTP status: 403 Forbidden)");
}

#[test]
fn details_without_cause_is_display() {
    let err = HttpWhatever::new("403:Input:nope");
    assert_eq!(err.details(), err.display());
}

#[test]
fn details_with_one_cause() {
    let err = HttpWhatever::wrap(vec!["disk on fire".to_string()], "503:Storage:save failed");
    assert_eq!(err.details(), format!("{}\n[disk on fire]", err.display()));
}

#[test]
fn details_with_cause_chain() {
    let err = HttpWhatever::wrap(
        vec!["middle layer".to_string(), "root cause".to_string()],
        "500:Core:it broke",
    );
    assert_eq!(err.details(), format!("{}\n[middle layer]\n[root cause]", err.display()));
}

#[test]
fn body_texts() {
    let err = HttpWhatever::new("403:Input:That was NOT a usize!");
    assert_eq!(err.string_body(), "That was NOT a usize! (application domain: Input)");
    assert_eq!(err.json_body(), "{\"message\":\"That was NOT a usize!\",\"domain\":\"Input\"}");
}
