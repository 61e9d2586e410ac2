use sha2::Digest;
use sigv4core::errors::SigError;
use sigv4core::signer::{sign_request, Identity, SignedRequest, SigningContext};
use sigv4core::timestamp::Timestamp;
use sigv4core::verify::verify_request;

fn bytes(s: &str) -> Vec<u8> {
    s.as_bytes().to_vec()
}

fn demo_identity() -> Identity {
    Identity { access_key_id: bytes("demo:primary"), secret_key: bytes("testkey") }
}

fn demo_context() -> SigningContext {
    SigningContext {
        region: bytes("test"),
        service: bytes("simulator"),
        timestamp: Timestamp { year: 2024, month: 1, day: 1, hour: 0, minute: 0, second: 0 },
    }
}

fn demo_body() -> Vec<u8> {
    bytes("{\"data\":\"hello world\"}")
}

const ENDPOINT: &str = "http://localhost:8765/validate";

fn sign_demo(extras: Vec<(Vec<u8>, Vec<u8>)>) -> SignedRequest {
    sign_request(
        &bytes("POST"),
        &bytes(ENDPOINT),
        &extras,
        &demo_body(),
        &demo_context(),
        &demo_identity(),
    )
    .unwrap()
}

/// The inbound header map a server would see for a signed request.
fn transmitted(sr: &SignedRequest, extras: Vec<(Vec<u8>, Vec<u8>)>) -> Vec<(Vec<u8>, Vec<u8>)> {
    let mut m = extras;
    m.push((bytes("Host"), sr.host.clone()));
    m.push((bytes("X-Amz-Date"), sr.x_amz_date.clone()));
    m.push((bytes("Authorization"), sr.authorization.clone()));
    m
}

fn verify_demo(headers: &Vec<(Vec<u8>, Vec<u8>)>, body: &Vec<u8>, secret: &str) -> Result<(), SigError> {
    verify_request(
        &bytes("POST"),
        &bytes(ENDPOINT),
        headers,
        body,
        &bytes("test"),
        &bytes("simulator"),
        &Identity { access_key_id: bytes("demo:primary"), secret_key: bytes(secret) },
    )
}

#[test]
fn end_to_end_accept_and_wrong_secret_reject() {
    let sr = sign_demo(vec![]);
    let headers = transmitted(&sr, vec![]);
    assert_eq!(verify_demo(&headers, &demo_body(), "testkey"), Ok(()));
    assert_eq!(
        verify_demo(&headers, &demo_body(), "otherkey"),
        Err(SigError::SignatureMismatch)
    );
}

#[test]
fn round_trip_with_extra_headers() {
    let extras = vec![(bytes("Content-Length"), bytes("22"))];
    let sr = sign_demo(extras.clone());
    let headers = transmitted(&sr, extras);
    assert_eq!(verify_demo(&headers, &demo_body(), "testkey"), Ok(()));
}

#[test]
fn signing_is_deterministic() {
    let a = sign_demo(vec![(bytes("X-Custom"), bytes("v"))]);
    let b = sign_demo(vec![(bytes("X-Custom"), bytes("v"))]);
    assert_eq!(a.authorization, b.authorization);
    assert_eq!(a.x_amz_date, b.x_amz_date);
    assert_eq!(a.host, b.host);
}

#[test]
fn tampered_body_rejects() {
    let sr = sign_demo(vec![]);
    let headers = transmitted(&sr, vec![]);
    let mut body = demo_body();
    body[2] ^= 1;
    assert_eq!(
        verify_demo(&headers, &body, "testkey"),
        Err(SigError::SignatureMismatch)
    );
}

#[test]
fn tampered_header_value_rejects() {
    let extras = vec![(bytes("Content-Length"), bytes("22"))];
    let sr = sign_demo(extras.clone());
    let headers = transmitted(&sr, vec![(bytes("Content-Length"), bytes("23"))]);
    assert_eq!(
        verify_demo(&headers, &demo_body(), "testkey"),
        Err(SigError::SignatureMismatch)
    );
}

#[test]
fn tampered_timestamp_rejects() {
    let sr = sign_demo(vec![]);
    let mut headers = transmitted(&sr, vec![]);
    for pair in headers.iter_mut() {
        if pair.0 == bytes("X-Amz-Date") {
            pair.1 = bytes("20240101T000001Z");
        }
    }
    assert_eq!(
        verify_demo(&headers, &demo_body(), "testkey"),
        Err(SigError::SignatureMismatch)
    );
}

#[test]
fn host_header_case_does_not_matter() {
    let sr = sign_demo(vec![]);
    for host_name in ["Host", "HOST", "host"] {
        let headers = vec![
            (bytes(host_name), sr.host.clone()),
            (bytes("X-Amz-Date"), sr.x_amz_date.clone()),
            (bytes("Authorization"), sr.authorization.clone()),
        ];
        assert_eq!(verify_demo(&headers, &demo_body(), "testkey"), Ok(()));
    }
}

#[test]
fn extra_header_name_case_does_not_matter_when_signing() {
    let a = sign_demo(vec![(bytes("X-Custom"), bytes("v"))]);
    let b = sign_demo(vec![(bytes("x-custom"), bytes("v"))]);
    assert_eq!(a.authorization, b.authorization);
}

#[test]
fn sign_rejects_empty_method_and_endpoint() {
    let r = sign_request(
        &bytes(""),
        &bytes(ENDPOINT),
        &vec![],
        &demo_body(),
        &demo_context(),
        &demo_identity(),
    );
    assert!(matches!(r, Err(SigError::MalformedRequest)));
    let r = sign_request(
        &bytes("POST"),
        &bytes(""),
        &vec![],
        &demo_body(),
        &demo_context(),
        &demo_identity(),
    );
    assert!(matches!(r, Err(SigError::MalformedRequest)));
}

#[test]
fn sign_rejects_invalid_timestamp() {
    let mut ctx = demo_context();
    ctx.timestamp.month = 13;
    let r = sign_request(
        &bytes("POST"),
        &bytes(ENDPOINT),
        &vec![],
        &demo_body(),
        &ctx,
        &demo_identity(),
    );
    assert!(matches!(r, Err(SigError::TimeFormatError)));
}

#[test]
fn sign_rejects_duplicate_and_reserved_headers() {
    let dup = vec![
        (bytes("X-Custom"), bytes("a")),
        (bytes("x-custom"), bytes("b")),
    ];
    let r = sign_request(
        &bytes("POST"),
        &bytes(ENDPOINT),
        &dup,
        &demo_body(),
        &demo_context(),
        &demo_identity(),
    );
    assert!(matches!(r, Err(SigError::MalformedRequest)));
    let reserved = vec![(bytes("Host"), bytes("evil"))];
    let r = sign_request(
        &bytes("POST"),
        &bytes(ENDPOINT),
        &reserved,
        &demo_body(),
        &demo_context(),
        &demo_identity(),
    );
    assert!(matches!(r, Err(SigError::MalformedRequest)));
}

#[test]
fn verify_rejects_missing_authorization() {
    let sr = sign_demo(vec![]);
    let headers = vec![
        (bytes("Host"), sr.host.clone()),
        (bytes("X-Amz-Date"), sr.x_amz_date.clone()),
    ];
    assert_eq!(
        verify_demo(&headers, &demo_body(), "testkey"),
        Err(SigError::MalformedRequest)
    );
}

#[test]
fn verify_rejects_claimed_but_absent_header() {
    let extras = vec![(bytes("Content-Length"), bytes("22"))];
    let sr = sign_demo(extras);
    // The signed request claims content-length, but the map lacks it.
    let headers = transmitted(&sr, vec![]);
    assert_eq!(
        verify_demo(&headers, &demo_body(), "testkey"),
        Err(SigError::MalformedRequest)
    );
}

#[test]
fn verify_rejects_unparsable_timestamp() {
    let sr = sign_demo(vec![]);
    let mut headers = transmitted(&sr, vec![]);
    for pair in headers.iter_mut() {
        if pair.0 == bytes("X-Amz-Date") {
            pair.1 = bytes("not-a-timestamp!");
        }
    }
    assert_eq!(
        verify_demo(&headers, &demo_body(), "testkey"),
        Err(SigError::TimeFormatError)
    );
}

#[test]
fn signed_request_shape() {
    let sr = sign_demo(vec![]);
    assert_eq!(sr.host, bytes("localhost:8765"));
    assert_eq!(sr.x_amz_date, bytes("20240101T000000Z"));
    let auth = String::from_utf8(sr.authorization.clone()).unwrap();
    assert!(auth.starts_with(
        "AWS4-HMAC-SHA256 Credential=demo:primary/20240101/test/simulator/aws4_request, SignedHeaders=host;x-amz-date, Signature="
    ));
    let sig = auth.rsplit('=').next().unwrap();
    assert_eq!(sig.len(), 64);
    assert!(sig.chars().all(|c| c.is_ascii_hexdigit() && !c.is_ascii_uppercase()));
}

/// The engine agrees with the same signature computed independently from the
/// underlying primitives over a hand-written canonical request.
#[test]
fn engine_matches_independent_computation() {
    let body = demo_body();
    let body_hex = hex::encode(sha2::Sha256::digest(&body));
    let creq = format!(
        "POST\n/validate\n\nhost:localhost:8765\nx-amz-date:20240101T000000Z\n\nhost;x-amz-date\n{}",
        body_hex
    );
    let creq_hex = hex::encode(sha2::Sha256::digest(creq.as_bytes()));
    let sts = format!(
        "AWS4-HMAC-SHA256\n20240101T000000Z\n20240101/test/simulator/aws4_request\n{}",
        creq_hex
    );
    let time = std::time::UNIX_EPOCH + std::time::Duration::from_secs(1704067200);
    let key = aws_sigv4::sign::v4::generate_signing_key("testkey", time, "test", "simulator");
    let sig = aws_sigv4::sign::v4::calculate_signature(key, sts.as_bytes());
    let expected = format!(
        "AWS4-HMAC-SHA256 Credential=demo:primary/20240101/test/simulator/aws4_request, SignedHeaders=host;x-amz-date, Signature={}",
        sig
    );
    let sr = sign_demo(vec![]);
    assert_eq!(sr.authorization, expected.into_bytes());
}

#[test]
fn header_values_are_trimmed_in_canonical_form() {
    let a = sign_demo(vec![(bytes("X-Custom"), bytes("  v  "))]);
    let b = sign_demo(vec![(bytes("X-Custom"), bytes("v"))]);
    assert_eq!(a.authorization, b.authorization);
}

#[test]
fn endpoint_query_is_part_of_the_signature() {
    let plain = sign_request(
        &bytes("POST"),
        &bytes("http://localhost:8765/validate"),
        &vec![],
        &demo_body(),
        &demo_context(),
        &demo_identity(),
    )
    .unwrap();
    let with_query = sign_request(
        &bytes("POST"),
        &bytes("http://localhost:8765/validate?mode=strict"),
        &vec![],
        &demo_body(),
        &demo_context(),
        &demo_identity(),
    )
    .unwrap();
    assert_eq!(plain.host, with_query.host);
    assert_ne!(plain.authorization, with_query.authorization);
}

#[test]
fn verify_rejects_list_without_required_names() {
    let headers = vec![
        (bytes("X-Amz-Date"), bytes("20240101T000000Z")),
        (
            bytes("Authorization"),
            bytes("AWS4-HMAC-SHA256 Credential=x, SignedHeaders=x-amz-date, Signature=abc"),
        ),
    ];
    assert_eq!(
        verify_demo(&headers, &demo_body(), "testkey"),
        Err(SigError::MalformedRequest)
    );
}

#[test]
fn verify_propagates_extraction_errors() {
    let no_list = vec![(
        bytes("Authorization"),
        bytes("AWS4-HMAC-SHA256 Credential=x, Signature=abc"),
    )];
    assert_eq!(
        verify_demo(&no_list, &demo_body(), "testkey"),
        Err(SigError::MissingSignedHeaders)
    );
    let empty_list = vec![(
        bytes("Authorization"),
        bytes("AWS4-HMAC-SHA256 Credential=x, SignedHeaders=, Signature=abc"),
    )];
    assert_eq!(
        verify_demo(&empty_list, &demo_body(), "testkey"),
        Err(SigError::EmptySignedHeaders)
    );
}

#[test]
fn signed_header_list_is_sorted() {
    let sr = sign_demo(vec![(bytes("Zeta"), bytes("1")), (bytes("Alpha"), bytes("2"))]);
    let auth = String::from_utf8(sr.authorization).unwrap();
    assert!(auth.contains("SignedHeaders=alpha;host;x-amz-date;zeta,"));
}
