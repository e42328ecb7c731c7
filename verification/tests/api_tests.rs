use cloudflare_ddns::api::{
    decode_envelope, ApiFailure, Client, Envelope, HttpMethod, ProviderError, Zone,
};

#[test]
fn envelope_with_result_succeeds() {
    let body = Some(Envelope { result: Some(41u32), errors: vec![] });
    assert!(matches!(decode_envelope(200, body), Ok(41)));
}

#[test]
fn undecodable_body_fails_with_status() {
    let r: Result<u32, ApiFailure> = decode_envelope(500, None);
    match r {
        Err(ApiFailure::Decode { status }) => assert_eq!(status, 500),
        _ => panic!("expected a decode failure"),
    }
}

#[test]
fn missing_result_surfaces_provider_errors() {
    let body = Some(Envelope {
        result: None::<Zone>,
        errors: vec![ProviderError { code: 1003, message: "Invalid zone".to_string() }],
    });
    match decode_envelope(400, body) {
        Err(ApiFailure::Rejected { status, errors }) => {
            assert_eq!(status, 400);
            assert_eq!(errors.len(), 1);
            assert_eq!(errors[0].code, 1003);
            assert_eq!(errors[0].message, "Invalid zone");
        },
        _ => panic!("expected a rejection carrying the provider errors"),
    }
}

#[test]
fn failure_message_lists_status_and_errors() {
    let f = ApiFailure::Rejected {
        status: 400,
        errors: vec![
            ProviderError { code: 1003, message: "Invalid zone".to_string() },
            ProviderError { code: 9109, message: "Unauthorized".to_string() },
        ],
    };
    assert_eq!(
        f.to_message(),
        "HTTP 400 Bad Request\n1003: Invalid zone\n9109: Unauthorized"
    );
    let d = ApiFailure::Decode { status: 502 };
    assert_eq!(d.to_message(), "HTTP 502 Bad Gateway");
    let teapot = ApiFailure::Decode { status: 418 };
    assert_eq!(teapot.to_message(), "HTTP 418 I'm a teapot");
    let unregistered = ApiFailure::Decode { status: 599 };
    assert_eq!(unregistered.to_message(), "HTTP 599 <unknown status code>");
}

#[test]
fn zones_request_targets_the_zones_collection() {
    let client = Client::new("tok-123".to_string());
    let req = client.zones("example.com").unwrap();
    assert!(matches!(req.method, HttpMethod::Get));
    assert_eq!(req.url, "https://api.cloudflare.com/client/v4/zones");
    assert_eq!(req.query_name.as_deref(), Some("example.com"));
    assert!(req.body_content.is_none());
    assert_eq!(req.bearer, "tok-123");
}

#[test]
fn dns_records_request_targets_the_zone() {
    let client = Client::new("tok".to_string());
    let req = client.dns_records("abc123", "example.com").unwrap();
    assert!(matches!(req.method, HttpMethod::Get));
    assert_eq!(req.url, "https://api.cloudflare.com/client/v4/zones/abc123/dns_records");
    assert_eq!(req.query_name.as_deref(), Some("example.com"));
    assert!(req.body_content.is_none());
}

#[test]
fn patch_request_carries_only_the_content() {
    let client = Client::new("tok".to_string());
    let req = client.patch_dns_record("abc123", "rec9", "10.0.0.2").unwrap();
    assert!(matches!(req.method, HttpMethod::Patch));
    assert_eq!(
        req.url,
        "https://api.cloudflare.com/client/v4/zones/abc123/dns_records/rec9"
    );
    assert!(req.query_name.is_none());
    assert_eq!(req.body_content.as_deref(), Some("10.0.0.2"));
}
