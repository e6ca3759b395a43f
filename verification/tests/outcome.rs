use grimoire::headers::WireHeader;
use grimoire::outcome::{
    classify, classify_dns_failure, classify_http_failure, DnsFailure, HttpFailure, Payload,
    ProbeOutcome, ProbeReport,
};
use grimoire::store::ProbeKind;

fn wire(name: &str, value: &str) -> WireHeader {
    WireHeader { name: name.to_string(), value: value.as_bytes().to_vec() }
}

#[test]
fn a_name_without_records_is_a_valid_negative() {
    assert!(matches!(classify_dns_failure(DnsFailure::NoRecordsFound), ProbeOutcome::NotFound));
    assert!(matches!(
        classify(ProbeKind::DnsResolve, ProbeReport::DnsFailure(DnsFailure::NoRecordsFound)),
        ProbeOutcome::NotFound
    ));
}

#[test]
fn every_other_failure_of_a_resolution_is_transient() {
    for failure in [
        DnsFailure::NoConnections,
        DnsFailure::Io,
        DnsFailure::Proto,
        DnsFailure::Timeout,
        DnsFailure::Message,
        DnsFailure::Other,
    ] {
        assert!(matches!(classify_dns_failure(failure), ProbeOutcome::TransientFailure));
        assert!(matches!(
            classify(ProbeKind::DnsResolve, ProbeReport::DnsFailure(failure)),
            ProbeOutcome::TransientFailure
        ));
    }
}

#[test]
fn addresses_are_a_find() {
    let report = ProbeReport::Resolved(vec!["192.0.2.1".to_string()]);
    match classify(ProbeKind::DnsResolve, report) {
        ProbeOutcome::Success(Payload::Addresses(list)) => assert_eq!(list, vec!["192.0.2.1"]),
        other => panic!("{other:?}"),
    }
}

#[test]
fn no_addresses_are_a_valid_negative() {
    assert!(matches!(
        classify(ProbeKind::DnsResolve, ProbeReport::Resolved(vec![])),
        ProbeOutcome::NotFound
    ));
}

#[test]
fn any_status_is_a_find() {
    for status in [200u16, 301, 404, 500, 599] {
        let report = ProbeReport::Response { status, headers: vec![wire("server", "nginx")] };
        match classify(ProbeKind::Https, report) {
            ProbeOutcome::Success(Payload::Response { status: found, headers }) => {
                assert_eq!(found, status);
                assert_eq!(headers.0.len(), 1);
                assert_eq!(headers.0[0].name, "server");
                assert_eq!(headers.0[0].values, vec!["nginx"]);
            }
            other => panic!("{other:?}"),
        }
    }
}

#[test]
fn cookies_of_a_response_are_blanked() {
    let report = ProbeReport::Response {
        status: 200,
        headers: vec![wire("set-cookie", "session=abc123; Path=/")],
    };
    match classify(ProbeKind::Http, report) {
        ProbeOutcome::Success(Payload::Response { headers, .. }) => {
            assert_eq!(headers.0[0].values, vec!["session=; Path=/"]);
        }
        other => panic!("{other:?}"),
    }
}

#[test]
fn a_response_with_an_unreadable_cookie_is_a_find_all_the_same() {
    let report =
        ProbeReport::Response { status: 200, headers: vec![wire("set-cookie", "garbage")] };
    match classify(ProbeKind::Http, report) {
        ProbeOutcome::Success(Payload::Response { status, headers }) => {
            assert_eq!(status, 200);
            assert_eq!(headers.0[0].name, "set-cookie");
            assert_eq!(headers.0[0].values, vec![""]);
        }
        other => panic!("{other:?}"),
    }
}

#[test]
fn failures_of_a_request() {
    for failure in [HttpFailure::Timeout, HttpFailure::Connect, HttpFailure::Request] {
        assert!(matches!(classify_http_failure(failure), ProbeOutcome::TransientFailure));
        assert!(matches!(
            classify(ProbeKind::Http, ProbeReport::HttpFailure(failure)),
            ProbeOutcome::TransientFailure
        ));
    }
    for failure in
        [HttpFailure::Builder, HttpFailure::Redirect, HttpFailure::Body, HttpFailure::Other]
    {
        assert!(matches!(classify_http_failure(failure), ProbeOutcome::Unclassified));
        assert!(matches!(
            classify(ProbeKind::Https, ProbeReport::HttpFailure(failure)),
            ProbeOutcome::Unclassified
        ));
    }
}

#[test]
fn a_certificate_name_is_a_find() {
    match classify(ProbeKind::CertSearch, ProbeReport::CertName("a.example.com".to_string())) {
        ProbeOutcome::Success(Payload::CertName(name)) => assert_eq!(name, "a.example.com"),
        other => panic!("{other:?}"),
    }
    assert!(matches!(
        classify(ProbeKind::CertSearch, ProbeReport::CertFailure),
        ProbeOutcome::Unclassified
    ));
}

#[test]
fn a_report_of_another_kind_is_not_accounted_for() {
    assert!(matches!(
        classify(ProbeKind::Http, ProbeReport::Resolved(vec!["192.0.2.1".to_string()])),
        ProbeOutcome::Unclassified
    ));
    assert!(matches!(
        classify(ProbeKind::DnsResolve, ProbeReport::CertName("a.example.com".to_string())),
        ProbeOutcome::Unclassified
    ));
    assert!(matches!(
        classify(ProbeKind::DnsResolve, ProbeReport::HttpFailure(HttpFailure::Timeout)),
        ProbeOutcome::Unclassified
    ));
    assert!(matches!(
        classify(ProbeKind::CertSearch, ProbeReport::DnsFailure(DnsFailure::NoRecordsFound)),
        ProbeOutcome::Unclassified
    ));
    assert!(matches!(
        classify(ProbeKind::CertSearch, ProbeReport::Response { status: 200, headers: vec![] }),
        ProbeOutcome::Unclassified
    ));
}
