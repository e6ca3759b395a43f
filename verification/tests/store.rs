use grimoire::store::{
    merge_addresses, unique, DedupKey, ProbeKind, RecordPayload, RecordTable, StoreRecord,
};

fn strings(items: &[&str]) -> Vec<String> {
    items.iter().map(|item| item.to_string()).collect()
}

fn dns(name: &str, addresses: &[&str]) -> StoreRecord {
    StoreRecord {
        kind: ProbeKind::DnsResolve,
        identity: name.to_string(),
        domain: "example.com".to_string(),
        payload: RecordPayload::Addresses(strings(addresses)),
    }
}

fn http(kind: ProbeKind, name: &str, status: u16) -> StoreRecord {
    StoreRecord {
        kind,
        identity: name.to_string(),
        domain: "example.com".to_string(),
        payload: RecordPayload::Response {
            url: "http://192.0.2.1/".to_string(),
            status,
            headers: "{}".to_string(),
        },
    }
}

fn key(kind: ProbeKind, name: &str) -> DedupKey {
    DedupKey { kind, identity: name.to_string() }
}

fn addresses(table: &RecordTable, name: &str) -> Vec<String> {
    let at = table.position(&key(ProbeKind::DnsResolve, name));
    match &table.rows[at].payload {
        RecordPayload::Addresses(list) => {
            let mut sorted = list.clone();
            sorted.sort();
            sorted
        }
        other => panic!("{other:?}"),
    }
}

#[test]
fn unique_keeps_first_occurrences() {
    assert_eq!(unique(&strings(&["b", "a", "b", "c", "a"])), strings(&["b", "a", "c"]));
    assert_eq!(unique(&strings(&[])), strings(&[]));
    assert_eq!(unique(&strings(&["x", "x", "x"])), strings(&["x"]));
}

#[test]
fn merged_addresses_are_the_union() {
    assert_eq!(
        merge_addresses(&strings(&["192.0.2.1", "192.0.2.2"]), &strings(&["192.0.2.2", "192.0.2.3"])),
        strings(&["192.0.2.1", "192.0.2.2", "192.0.2.3"])
    );
    assert_eq!(merge_addresses(&strings(&[]), &strings(&["a", "a"])), strings(&["a"]));
    assert_eq!(merge_addresses(&strings(&["a"]), &strings(&[])), strings(&["a"]));
}

#[test]
fn two_resolutions_of_one_name_are_united() {
    let a = ["192.0.2.1", "192.0.2.2"];
    let b = ["192.0.2.2", "2001:db8::1"];
    let union = strings(&["192.0.2.1", "192.0.2.2", "2001:db8::1"]);

    let mut one_order = RecordTable::new();
    one_order.upsert(dns("www.example.com", &a));
    one_order.upsert(dns("www.example.com", &b));
    assert_eq!(one_order.rows.len(), 1);
    assert_eq!(addresses(&one_order, "www.example.com"), union);

    let mut other_order = RecordTable::new();
    other_order.upsert(dns("www.example.com", &b));
    other_order.upsert(dns("www.example.com", &a));
    assert_eq!(other_order.rows.len(), 1);
    assert_eq!(addresses(&other_order, "www.example.com"), union);
}

#[test]
fn an_empty_resolution_keeps_the_known_addresses() {
    let mut table = RecordTable::new();
    table.upsert(dns("www.example.com", &["192.0.2.1"]));
    table.upsert(dns("www.example.com", &[]));
    assert_eq!(addresses(&table, "www.example.com"), strings(&["192.0.2.1"]));
}

#[test]
fn two_answers_of_one_host_leave_one_row() {
    let mut table = RecordTable::new();
    table.upsert(http(ProbeKind::Http, "www.example.com", 200));
    table.upsert(http(ProbeKind::Http, "www.example.com", 503));
    assert_eq!(table.rows.len(), 1);
    match &table.rows[0].payload {
        RecordPayload::Response { status, .. } => assert_eq!(*status, 200),
        other => panic!("{other:?}"),
    }
}

#[test]
fn each_kind_has_its_own_rows() {
    let mut table = RecordTable::new();
    table.upsert(http(ProbeKind::Http, "www.example.com", 200));
    table.upsert(http(ProbeKind::Https, "www.example.com", 301));
    table.upsert(dns("www.example.com", &["192.0.2.1"]));
    assert_eq!(table.rows.len(), 3);
    assert!(table.contains(&key(ProbeKind::Http, "www.example.com")));
    assert!(table.contains(&key(ProbeKind::Https, "www.example.com")));
    assert!(table.contains(&key(ProbeKind::DnsResolve, "www.example.com")));
    assert!(!table.contains(&key(ProbeKind::CertSearch, "www.example.com")));
    assert!(!table.contains(&key(ProbeKind::Http, "other.example.com")));
}

#[test]
fn position_is_the_row_of_the_key() {
    let mut table = RecordTable::new();
    assert_eq!(table.position(&key(ProbeKind::DnsResolve, "a.example.com")), 0);
    table.upsert(dns("a.example.com", &[]));
    table.upsert(dns("b.example.com", &[]));
    assert_eq!(table.position(&key(ProbeKind::DnsResolve, "a.example.com")), 0);
    assert_eq!(table.position(&key(ProbeKind::DnsResolve, "b.example.com")), 1);
    assert_eq!(table.position(&key(ProbeKind::DnsResolve, "c.example.com")), 2);
}

#[test]
fn the_key_of_a_record() {
    let record = dns("a.example.com", &[]);
    let key = record.key();
    assert_eq!(key.kind, ProbeKind::DnsResolve);
    assert_eq!(key.identity, "a.example.com");
}

#[test]
fn a_certificate_name_is_written_once() {
    let name = |name: &str| StoreRecord {
        kind: ProbeKind::CertSearch,
        identity: name.to_string(),
        domain: "example.com".to_string(),
        payload: RecordPayload::Bare,
    };
    let mut table = RecordTable::new();
    table.upsert(name("a.example.com"));
    table.upsert(name("a.example.com"));
    table.upsert(name("b.example.com"));
    assert_eq!(table.rows.len(), 2);
}

#[test]
fn merging_rows() {
    let merged = dns("a.example.com", &["x"]).merge(&dns("a.example.com", &["y", "x"]));
    match merged.payload {
        RecordPayload::Addresses(list) => assert_eq!(list, strings(&["x", "y"])),
        other => panic!("{other:?}"),
    }
    let kept = http(ProbeKind::Http, "a.example.com", 200).merge(&dns("a.example.com", &["y"]));
    assert!(matches!(kept.payload, RecordPayload::Response { status: 200, .. }));
}
