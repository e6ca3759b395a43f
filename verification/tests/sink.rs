use grimoire::fqdn::Fqdn;
use grimoire::headers::{AnonymizedHttpHeaders, HeaderEntry};
use grimoire::outcome::{Payload, ProbeOutcome};
use grimoire::sink::{bracket, holds_colon, owning_domain, probe_url, Policy, ProbeTask};
use grimoire::store::{ProbeKind, RecordPayload};

fn policy(persist: bool, quiet: bool) -> Policy {
    Policy { persist, force_reprobe: false, quiet, strict_names: false }
}

fn dns_task(name: &str) -> ProbeTask {
    ProbeTask {
        kind: ProbeKind::DnsResolve,
        fqdn: Fqdn::from_str(name).unwrap(),
        address: None,
        url: None,
    }
}

fn http_task(kind: ProbeKind, name: &str, address: &str) -> ProbeTask {
    ProbeTask {
        kind,
        fqdn: Fqdn::from_str(name).unwrap(),
        address: Some(address.to_string()),
        url: probe_url(kind, address),
    }
}

fn headers() -> AnonymizedHttpHeaders {
    AnonymizedHttpHeaders(vec![HeaderEntry {
        name: "a".to_string(),
        values: vec!["b".to_string()],
    }])
}

#[test]
fn the_domain_that_owns_a_name() {
    assert_eq!(owning_domain(&Fqdn::from_str("a.b.example.com").unwrap()), "example.com");
    assert_eq!(owning_domain(&Fqdn::from_str("example.com").unwrap()), "example.com");
    assert_eq!(owning_domain(&Fqdn(vec!["localhost".to_string()])), "localhost");
    assert_eq!(owning_domain(&Fqdn(vec![])), "");
}

#[test]
fn urls_of_the_two_schemes() {
    assert_eq!(probe_url(ProbeKind::Http, "192.0.2.1"), Some("http://192.0.2.1/".to_string()));
    assert_eq!(probe_url(ProbeKind::Https, "192.0.2.1"), Some("https://192.0.2.1/".to_string()));
}

#[test]
fn an_ipv6_address_stands_in_brackets() {
    assert_eq!(probe_url(ProbeKind::Http, "::1"), Some("http://[::1]/".to_string()));
    assert_eq!(probe_url(ProbeKind::Https, "::1"), Some("https://[::1]/".to_string()));
    assert_eq!(
        probe_url(ProbeKind::Http, "2001:db8::1"),
        Some("http://[2001:db8::1]/".to_string())
    );
    assert_eq!(
        probe_url(ProbeKind::Https, "2001:db8:0:0:0:0:0:1"),
        Some("https://[2001:db8::1]/".to_string())
    );
}

#[test]
fn brackets_go_round_what_holds_a_colon() {
    assert!(holds_colon("::1"));
    assert!(holds_colon("a:b"));
    assert!(holds_colon("\u{e9}:"));
    assert!(!holds_colon("192.0.2.1"));
    assert!(!holds_colon(""));
    assert!(!holds_colon("\u{e9}\u{ff1a}"));
    assert_eq!(bracket("::1"), "[::1]");
    assert_eq!(bracket("192.0.2.1"), "192.0.2.1");
    assert_eq!(bracket(""), "");
    assert_eq!(bracket(":"), "[:]");
}

#[test]
fn an_address_that_makes_no_url() {
    assert_eq!(probe_url(ProbeKind::Http, ""), None);
    assert_eq!(probe_url(ProbeKind::Https, "not:an:address"), None);
    assert_eq!(probe_url(ProbeKind::Http, "192.0.2.1:notaport"), None);
    assert_eq!(probe_url(ProbeKind::Http, "192.0.2.1 80"), None);
}

#[test]
fn the_line_of_a_resolution() {
    let task = dns_task("www.example.com");
    let found = Payload::Addresses(vec!["192.0.2.1".to_string(), "2001:db8::1".to_string()]);
    assert_eq!(task.result_line(&found), "www.example.com 192.0.2.1 2001:db8::1");
}

#[test]
fn the_line_of_a_response() {
    let task = http_task(ProbeKind::Http, "www.example.com", "192.0.2.1");
    let found = Payload::Response { status: 404, headers: headers() };
    assert_eq!(
        task.result_line(&found),
        "www.example.com 192.0.2.1 http://192.0.2.1/ 404 eyJhIjpbImIiXX0="
    );
}

#[test]
fn the_line_of_a_certificate_name() {
    let task = ProbeTask {
        kind: ProbeKind::CertSearch,
        fqdn: Fqdn::from_str("example.com").unwrap(),
        address: None,
        url: None,
    };
    let found = Payload::CertName("mail.example.com".to_string());
    assert_eq!(task.result_line(&found), "mail.example.com");
    let record = task.result_record(&found);
    assert_eq!(record.kind, ProbeKind::CertSearch);
    assert_eq!(record.identity, "mail.example.com");
    assert_eq!(record.domain, "example.com");
    assert!(matches!(record.payload, RecordPayload::Bare));
    assert!(task.negative_record().is_none());
}

#[test]
fn the_record_of_a_resolution() {
    let task = dns_task("a.b.example.com");
    let record = task.result_record(&Payload::Addresses(vec!["192.0.2.1".to_string()]));
    assert_eq!(record.kind, ProbeKind::DnsResolve);
    assert_eq!(record.identity, "a.b.example.com");
    assert_eq!(record.domain, "example.com");
    match record.payload {
        RecordPayload::Addresses(list) => assert_eq!(list, vec!["192.0.2.1"]),
        other => panic!("{other:?}"),
    }
}

#[test]
fn the_record_of_a_response() {
    let task = http_task(ProbeKind::Https, "www.example.com", "192.0.2.1");
    let record = task.result_record(&Payload::Response { status: 200, headers: headers() });
    assert_eq!(record.kind, ProbeKind::Https);
    assert_eq!(record.identity, "www.example.com");
    assert_eq!(record.domain, "example.com");
    match record.payload {
        RecordPayload::Response { url, status, headers } => {
            assert_eq!(url, "https://192.0.2.1/");
            assert_eq!(status, 200);
            assert_eq!(headers, r#"{"a":["b"]}"#);
        }
        other => panic!("{other:?}"),
    }
}

#[test]
fn negative_records() {
    let dns = dns_task("www.example.com").negative_record().unwrap();
    assert_eq!(dns.identity, "www.example.com");
    match dns.payload {
        RecordPayload::Addresses(list) => assert!(list.is_empty()),
        other => panic!("{other:?}"),
    }
    let http = http_task(ProbeKind::Http, "www.example.com", "192.0.2.1").negative_record().unwrap();
    match http.payload {
        RecordPayload::Response { url, status, headers } => {
            assert_eq!(url, "http://192.0.2.1/");
            assert_eq!(status, 0);
            assert_eq!(headers, "{}");
        }
        other => panic!("{other:?}"),
    }
}

#[test]
fn a_find_is_printed_and_recorded() {
    let task = dns_task("www.example.com");
    let outcome = ProbeOutcome::Success(Payload::Addresses(vec!["192.0.2.1".to_string()]));
    let delivery = task.deliver(&policy(true, false), &outcome);
    assert_eq!(delivery.line.as_deref(), Some("www.example.com 192.0.2.1"));
    assert!(delivery.record.is_some());
    assert!(!delivery.fatal);
}

#[test]
fn quiet_suppresses_the_line_and_not_the_record() {
    let task = dns_task("www.example.com");
    let outcome = ProbeOutcome::Success(Payload::Addresses(vec!["192.0.2.1".to_string()]));
    let delivery = task.deliver(&policy(true, true), &outcome);
    assert!(delivery.line.is_none());
    assert!(delivery.record.is_some());
}

#[test]
fn without_persistence_nothing_is_recorded() {
    let task = dns_task("www.example.com");
    let outcome = ProbeOutcome::Success(Payload::Addresses(vec!["192.0.2.1".to_string()]));
    let delivery = task.deliver(&policy(false, false), &outcome);
    assert!(delivery.line.is_some());
    assert!(delivery.record.is_none());
    let negative = task.deliver(&policy(false, false), &ProbeOutcome::NotFound);
    assert!(negative.line.is_none() && negative.record.is_none() && !negative.fatal);
}

#[test]
fn negatives_and_transient_failures_are_recorded_and_not_printed() {
    let task = http_task(ProbeKind::Http, "www.example.com", "192.0.2.1");
    for outcome in [ProbeOutcome::NotFound, ProbeOutcome::TransientFailure] {
        let delivery = task.deliver(&policy(true, false), &outcome);
        assert!(delivery.line.is_none());
        assert!(!delivery.fatal);
        match delivery.record.unwrap().payload {
            RecordPayload::Response { status, .. } => assert_eq!(status, 0),
            other => panic!("{other:?}"),
        }
    }
}

#[test]
fn an_outcome_that_is_not_accounted_for_is_fatal() {
    let task = dns_task("www.example.com");
    let delivery = task.deliver(&policy(true, false), &ProbeOutcome::Unclassified);
    assert!(delivery.fatal);
    assert!(delivery.line.is_none());
    assert!(delivery.record.is_none());
}

#[test]
fn a_find_that_does_not_fit_its_task_is_fatal() {
    let task = dns_task("www.example.com");
    let found = Payload::CertName("www.example.com".to_string());
    assert!(!task.fits(&found));
    let delivery = task.deliver(&policy(true, false), &ProbeOutcome::Success(found));
    assert!(delivery.fatal);
    assert!(delivery.line.is_none());
    assert!(delivery.record.is_none());
    assert!(task.fits(&Payload::Addresses(vec![])));
    let no_url = ProbeTask {
        kind: ProbeKind::Http,
        fqdn: Fqdn::from_str("www.example.com").unwrap(),
        address: Some("192.0.2.1".to_string()),
        url: None,
    };
    assert!(!no_url.fits(&Payload::Response { status: 200, headers: headers() }));
    assert!(no_url.negative_record().is_none());
}
