use cloudflare_ddns::addr::{format_address, IpAddress};
use cloudflare_ddns::discovery::{
    discover_address, discovery_query, name_server, DiscoveryError, QueryClass, QueryType,
    RecordFamily, TxtAnswer,
};

fn txt(segments: Vec<Vec<u8>>) -> TxtAnswer {
    TxtAnswer { is_txt: true, segments }
}

#[test]
fn no_answers_is_a_distinct_failure() {
    let r = discover_address(RecordFamily::V4, &vec![]);
    assert!(matches!(r, Err(DiscoveryError::NoAnswers)));
}

#[test]
fn wrong_record_type_is_a_distinct_failure() {
    let answers = vec![TxtAnswer { is_txt: false, segments: vec![] }];
    let r = discover_address(RecordFamily::V4, &answers);
    assert!(matches!(r, Err(DiscoveryError::InvalidRecordType)));
}

#[test]
fn empty_text_list_is_a_distinct_failure() {
    let answers = vec![txt(vec![])];
    let r = discover_address(RecordFamily::V4, &answers);
    assert!(matches!(r, Err(DiscoveryError::NoRecordData)));
}

#[test]
fn invalid_encoding_is_a_distinct_failure() {
    let answers = vec![txt(vec![vec![0xff, 0xfe]])];
    let r = discover_address(RecordFamily::V4, &answers);
    assert!(matches!(r, Err(DiscoveryError::InvalidRecordData)));
}

#[test]
fn unparsable_address_is_a_distinct_failure() {
    let answers = vec![txt(vec![b"not-an-ip".to_vec()])];
    let r = discover_address(RecordFamily::V4, &answers);
    assert!(matches!(r, Err(DiscoveryError::ParseFailure)));
}

#[test]
fn v6_text_does_not_parse_as_v4() {
    let answers = vec![txt(vec![b"2606:4700:4700::1111".to_vec()])];
    let r = discover_address(RecordFamily::V4, &answers);
    assert!(matches!(r, Err(DiscoveryError::ParseFailure)));
}

#[test]
fn discovers_a_v4_address() {
    let answers = vec![txt(vec![b"10.0.0.2".to_vec()])];
    let a = discover_address(RecordFamily::V4, &answers).unwrap();
    assert_eq!(format_address(&a), "10.0.0.2");
}

#[test]
fn discovers_a_v6_address() {
    let answers = vec![txt(vec![b"2606:4700:4700::1111".to_vec()])];
    let a = discover_address(RecordFamily::V6, &answers).unwrap();
    assert_eq!(format_address(&a), "2606:4700:4700::1111");
}

#[test]
fn discovers_a_v4_mapped_v6_address() {
    let answers = vec![txt(vec![b"::ffff:10.0.0.2".to_vec()])];
    let a = discover_address(RecordFamily::V6, &answers).unwrap();
    assert_eq!(format_address(&a), "::ffff:a00:2");
}

#[test]
fn only_the_first_answer_and_segment_count() {
    let answers = vec![
        txt(vec![b"10.0.0.2".to_vec(), b"garbage".to_vec()]),
        TxtAnswer { is_txt: false, segments: vec![] },
    ];
    let a = discover_address(RecordFamily::V4, &answers).unwrap();
    assert_eq!(format_address(&a), "10.0.0.2");
}

#[test]
fn failure_descriptions_are_distinct() {
    assert_eq!(DiscoveryError::NoAnswers.describe(), "No answers");
    assert_eq!(DiscoveryError::NoRecordData.describe(), "No record data");
    assert_eq!(DiscoveryError::InvalidRecordData.describe(), "Invalid record data");
    assert_eq!(DiscoveryError::ParseFailure.describe(), "Failed to parse record data");
    assert_eq!(DiscoveryError::InvalidRecordType.describe(), "Invalid record type");
}

#[test]
fn resolvers_are_the_well_known_addresses() {
    let v4 = name_server(RecordFamily::V4);
    assert_eq!(format_address(&v4), "1.1.1.1");
    let v6 = name_server(RecordFamily::V6);
    assert_eq!(format_address(&v6), "2606:4700:4700::1111");
    match name_server(RecordFamily::V4) {
        IpAddress::V4(a) => {
            assert_eq!((a.o0, a.o1, a.o2, a.o3), (1, 1, 1, 1));
        },
        IpAddress::V6(_) => panic!("expected a v4 resolver"),
    }
}

#[test]
fn discovery_query_is_the_whoami_lookup() {
    let q = discovery_query(RecordFamily::V4);
    assert_eq!(q.port, 53);
    assert_eq!(q.qname, "whoami.cloudflare");
    assert_eq!(q.qclass, QueryClass::Chaos);
    assert_eq!(q.qtype, QueryType::Txt);
    assert_eq!(format_address(&q.server), "1.1.1.1");
    let q6 = discovery_query(RecordFamily::V6);
    assert_eq!(format_address(&q6.server), "2606:4700:4700::1111");
}
