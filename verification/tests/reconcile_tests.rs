use cloudflare_ddns::api::{ApiFailure, DnsRecord, HttpMethod, ProviderError, Zone};
use cloudflare_ddns::discovery::{RecordFamily, TxtAnswer};
use cloudflare_ddns::logging::{init, Level};
use cloudflare_ddns::reconcile::{NextStep, Phase, Reconciler, RecordStep, RunError};

fn answers(text: &str) -> Vec<TxtAnswer> {
    vec![TxtAnswer { is_txt: true, segments: vec![text.as_bytes().to_vec()] }]
}

fn record(id: &str, type_: &str, content: &str) -> DnsRecord {
    DnsRecord { id: id.to_string(), type_: type_.to_string(), content: content.to_string() }
}

fn started(domain: &str) -> Reconciler {
    let mut r = Reconciler::new("tok".to_string(), domain.to_string());
    let req = r.start().unwrap();
    assert_eq!(req.url, "https://api.cloudflare.com/client/v4/zones");
    assert_eq!(req.query_name.as_deref(), Some(domain));
    r
}

#[test]
fn first_zone_of_the_returned_order_is_selected() {
    let mut r = started("example.com");
    let req = r
        .on_zones(Ok(vec![
            Zone { id: "zone-one".to_string() },
            Zone { id: "zone-two".to_string() },
        ]))
        .unwrap();
    assert!(matches!(req.method, HttpMethod::Get));
    assert_eq!(
        req.url,
        "https://api.cloudflare.com/client/v4/zones/zone-one/dns_records"
    );
    assert_eq!(req.query_name.as_deref(), Some("example.com"));
    assert_eq!(r.zone_id, "zone-one");
}

#[test]
fn no_matching_zone_ends_the_run() {
    let mut r = started("example.com");
    let e = r.on_zones(Ok(vec![])).unwrap_err();
    assert!(matches!(e, RunError::ZoneNotFound));
    assert_eq!(r.phase, Phase::Failed);
}

#[test]
fn provider_rejection_carries_status_and_errors() {
    let mut r = started("example.com");
    let failure = ApiFailure::Rejected {
        status: 400,
        errors: vec![ProviderError { code: 1003, message: "Invalid zone".to_string() }],
    };
    match r.on_zones(Err(failure)).unwrap_err() {
        RunError::Api(ApiFailure::Rejected { status, errors }) => {
            assert_eq!(status, 400);
            assert_eq!(errors.len(), 1);
            assert_eq!(errors[0].code, 1003);
            assert_eq!(errors[0].message, "Invalid zone");
        },
        _ => panic!("expected the provider failure back"),
    }
    assert_eq!(r.phase, Phase::Failed);
}

#[test]
fn empty_record_list_finishes_without_work() {
    let mut r = started("example.com");
    r.on_zones(Ok(vec![Zone { id: "z1".to_string() }])).unwrap();
    r.on_records(Ok(vec![])).unwrap();
    assert!(matches!(r.next_step(), NextStep::Finished));
    assert_eq!(r.phase, Phase::Finished);
    assert!(r.log.lines.is_empty());
}

#[test]
fn round_trip_patches_a_differing_record() {
    let mut r = started("example.com");
    r.on_zones(Ok(vec![Zone { id: "z1".to_string() }])).unwrap();
    r.on_records(Ok(vec![record("r1", "A", "10.0.0.1")])).unwrap();
    let step = r.next_step();
    assert!(matches!(step, NextStep::Discover(RecordFamily::V4)));
    let decision = r.on_discovered(&answers("10.0.0.2")).unwrap();
    let req = match decision {
        RecordStep::Patch(req) => req,
        RecordStep::NoUpdate => panic!("expected a patch"),
    };
    assert!(matches!(req.method, HttpMethod::Patch));
    assert_eq!(
        req.url,
        "https://api.cloudflare.com/client/v4/zones/z1/dns_records/r1"
    );
    assert_eq!(req.body_content.as_deref(), Some("10.0.0.2"));
    r.on_patched(Ok(record("r1", "A", "10.0.0.2"))).unwrap();
    assert!(matches!(r.next_step(), NextStep::Finished));
    assert_eq!(r.log.lines.len(), 1);
    assert_eq!(r.log.lines[0], "Updated A record from 10.0.0.1 to 10.0.0.2");
}

#[test]
fn equal_content_needs_no_update() {
    let mut r = started("example.com");
    r.on_zones(Ok(vec![Zone { id: "z1".to_string() }])).unwrap();
    r.on_records(Ok(vec![record("r1", "A", "10.0.0.2")])).unwrap();
    assert!(matches!(r.next_step(), NextStep::Discover(RecordFamily::V4)));
    let decision = r.on_discovered(&answers("10.0.0.2")).unwrap();
    assert!(matches!(decision, RecordStep::NoUpdate));
    assert!(matches!(r.next_step(), NextStep::Finished));
    assert_eq!(r.log.lines.len(), 1);
    assert_eq!(r.log.lines[0], "No update required for A record (10.0.0.2)");
}

#[test]
fn second_run_after_a_patch_patches_nothing() {
    // First run: content differs, one patch.
    let mut first = started("example.com");
    first.on_zones(Ok(vec![Zone { id: "z1".to_string() }])).unwrap();
    first.on_records(Ok(vec![record("r1", "A", "10.0.0.1")])).unwrap();
    assert!(matches!(first.next_step(), NextStep::Discover(_)));
    let patched = match first.on_discovered(&answers("10.0.0.2")).unwrap() {
        RecordStep::Patch(req) => {
            record("r1", "A", req.body_content.as_deref().unwrap())
        },
        RecordStep::NoUpdate => panic!("expected a patch"),
    };
    first.on_patched(Ok(record("r1", "A", "10.0.0.2"))).unwrap();
    assert!(matches!(first.next_step(), NextStep::Finished));

    // Second run over the patched record, same discovered address.
    let mut second = started("example.com");
    second.on_zones(Ok(vec![Zone { id: "z1".to_string() }])).unwrap();
    second.on_records(Ok(vec![patched])).unwrap();
    assert!(matches!(second.next_step(), NextStep::Discover(_)));
    let decision = second.on_discovered(&answers("10.0.0.2")).unwrap();
    assert!(matches!(decision, RecordStep::NoUpdate));
    assert!(matches!(second.next_step(), NextStep::Finished));
}

#[test]
fn only_a_and_aaaa_records_trigger_discovery() {
    let mut r = started("example.com");
    r.on_zones(Ok(vec![Zone { id: "z1".to_string() }])).unwrap();
    r.on_records(Ok(vec![
        record("r1", "A", "10.0.0.2"),
        record("r2", "AAAA", "2606:4700:4700::1111"),
        record("r3", "CNAME", "other.example.com"),
        record("r4", "TXT", "v=spf1 -all"),
    ]))
    .unwrap();

    let mut discoveries = 0;
    let mut patches = 0;
    loop {
        match r.next_step() {
            NextStep::Finished => break,
            NextStep::Discover(family) => {
                discoveries += 1;
                let text = match family {
                    RecordFamily::V4 => "10.0.0.2",
                    RecordFamily::V6 => "2606:4700:4700::1111",
                };
                match r.on_discovered(&answers(text)).unwrap() {
                    RecordStep::NoUpdate => {},
                    RecordStep::Patch(_) => patches += 1,
                }
            },
        }
    }
    assert_eq!(discoveries, 2);
    assert_eq!(patches, 0);
    // The CNAME and TXT records were skipped without a log entry.
    assert_eq!(r.log.lines.len(), 2);
}

#[test]
fn discovery_failure_ends_the_run() {
    let mut r = started("example.com");
    r.on_zones(Ok(vec![Zone { id: "z1".to_string() }])).unwrap();
    r.on_records(Ok(vec![record("r1", "A", "10.0.0.1")])).unwrap();
    assert!(matches!(r.next_step(), NextStep::Discover(_)));
    let e = r.on_discovered(&vec![]).unwrap_err();
    assert!(matches!(e, RunError::Discovery(_)));
    assert_eq!(r.phase, Phase::Failed);
}

#[test]
fn patch_failure_ends_the_run() {
    let mut r = started("example.com");
    r.on_zones(Ok(vec![Zone { id: "z1".to_string() }])).unwrap();
    r.on_records(Ok(vec![record("r1", "A", "10.0.0.1")])).unwrap();
    assert!(matches!(r.next_step(), NextStep::Discover(_)));
    assert!(matches!(
        r.on_discovered(&answers("10.0.0.2")).unwrap(),
        RecordStep::Patch(_)
    ));
    let e = r.on_patched(Err(ApiFailure::Decode { status: 502 })).unwrap_err();
    assert!(matches!(e, RunError::Api(ApiFailure::Decode { status: 502 })));
    assert_eq!(r.phase, Phase::Failed);
    assert!(r.log.lines.is_empty());
}

#[test]
fn logger_filters_by_severity() {
    let mut lg = init(Level::Info);
    assert!(lg.enabled(Level::Error));
    assert!(lg.enabled(Level::Info));
    assert!(!lg.enabled(Level::Debug));
    lg.log(Level::Info, "kept".to_string());
    lg.log(Level::Debug, "dropped".to_string());
    assert_eq!(lg.lines, vec!["kept".to_string()]);

    let mut quiet = init(Level::Warn);
    assert!(!quiet.enabled(Level::Info));
    quiet.log(Level::Info, "dropped".to_string());
    assert!(quiet.lines.is_empty());
}
