use http_whatever::codec;
use http_whatever::HttpWhatever;

fn parse_usize(strint: &str) -> Result<usize, std::num::ParseIntError> {
    strint.parse()
}

#[test]
fn basic_test() {
    let err = parse_usize("certainly not a usize").unwrap_err();
    let result = HttpWhatever::wrap(vec![err.to_string()], "400:Input:That was NOT a usize!");

    let parts = result.parts();
    assert_eq!(parts.0, "That was NOT a usize!");
    assert_eq!(parts.1, "Input");
    assert_eq!(parts.2, http::StatusCode::BAD_REQUEST.as_u16());
}

#[test]
fn basic_details() {
    let err = parse_usize("certainly not a usize").unwrap_err();
    let result = HttpWhatever::wrap(vec![err.to_string()], "400:Input:That was NOT a usize!");

    assert_eq!(
        result.details(),
        "That was NOT a usize!: (Domain: Input, HTTP status: 400 Bad Request)\n[invalid digit found in string]"
    );
}

#[test]
fn test_macro() {
    let err = parse_usize("certainly not a usize").unwrap_err();
    let message = codec::encode(400, "Input", "That was NOT a usize!");
    let result = HttpWhatever::wrap(vec![err.to_string()], &message);

    let parts = result.parts();
    assert_eq!(parts.0, "That was NOT a usize!");
    assert_eq!(parts.1, "Input");
    assert_eq!(parts.2, http::StatusCode::BAD_REQUEST.as_u16());
}

#[test]
fn test_new() {
    let result = HttpWhatever::new(&codec::encode(403, "Input", "That was NOT a usize!"));

    let parts = result.parts();
    assert_eq!(parts.0, "That was NOT a usize!");
    assert_eq!(parts.1, "Input");
    assert_eq!(parts.2, http::StatusCode::FORBIDDEN.as_u16());
}

#[test]
fn test_response() {
    let result = HttpWhatever::new(&codec::encode(403, "Input", "That was NOT a usize!"));
    let http1: http::Response<String> = result.as_http_response();
    let http2: http::Response<String> = result.as_http_string_response();
    let http3: http::Response<String> = result.as_http_json_response();

    assert_eq!(http1.body(), "");
    assert_eq!(http1.status(), http::StatusCode::FORBIDDEN);
    assert_eq!(http2.body(), "That was NOT a usize! (application domain: Input)");
    assert_eq!(
        http2.headers().get(http::header::CONTENT_TYPE).unwrap().to_str().unwrap(),
        "text/plain"
    );
    assert_eq!(http3.body(), "{\"message\":\"That was NOT a usize!\",\"domain\":\"Input\"}");
    assert_eq!(
        http3.headers().get(http::header::CONTENT_TYPE).unwrap().to_str().unwrap(),
        "application/json"
    );
}
