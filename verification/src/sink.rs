//! What becomes of a classified outcome: the line that is printed and the
//! record that is persisted.

use crate::bindings::{url_parse, url_text};
use crate::fqdn::{dotted, Fqdn};
use crate::headers::{blob_text, json_object};
use crate::outcome::{FoundView, OutcomeView, Payload, ProbeOutcome};
use crate::store::{PayloadView, ProbeKind, RecordPayload, RecordView, StoreRecord};
use crate::text::{copy_texts, decimal, decimal_text, join, joined, texts};
use vstd::prelude::*;

verus! {

/// What the operator chose for a run.
#[derive(Debug, Clone, Copy, PartialEq, Eq, Structural)]
pub struct Policy {
    /// Results are written to the store, and known targets are skipped.
    pub persist: bool,
    /// Targets are probed even where the store knows them.
    pub force_reprobe: bool,
    /// No result lines are printed.
    pub quiet: bool,
    /// Names are read with the strict label rules.
    pub strict_names: bool,
}

/// One probe to run: its kind, the name it is about and, for a probe over
/// HTTP, the address to reach and the URL to ask.
#[derive(Debug, Clone)]
pub struct ProbeTask {
    pub kind: ProbeKind,
    pub fqdn: Fqdn,
    pub address: Option<String>,
    pub url: Option<String>,
}

/// What the sink does with one outcome.
#[derive(Debug, Clone)]
pub struct Delivery {
    /// The line to print, if any.
    pub line: Option<String>,
    /// The record to write, if any.
    pub record: Option<StoreRecord>,
    /// Whether the outcome stops the pipeline.
    pub fatal: bool,
}

/// A task as plain values.
pub ghost struct TaskView {
    pub kind: ProbeKind,
    pub labels: Seq<Seq<char>>,
    pub address: Option<Seq<char>>,
    pub url: Option<Seq<char>>,
}

/// A delivery as plain values.
pub ghost struct DeliveryView {
    pub line: Option<Seq<char>>,
    pub record: Option<RecordView>,
    pub fatal: bool,
}

impl View for ProbeTask {
    type V = TaskView;

    open spec fn view(&self) -> TaskView {
        TaskView {
            kind: self.kind,
            labels: self.fqdn@,
            address: match self.address {
                Some(address) => Some(address@),
                None => None,
            },
            url: match self.url {
                Some(url) => Some(url@),
                None => None,
            },
        }
    }
}

impl View for Delivery {
    type V = DeliveryView;

    open spec fn view(&self) -> DeliveryView {
        DeliveryView {
            line: match self.line {
                Some(line) => Some(line@),
                None => None,
            },
            record: match self.record {
                Some(record) => Some(record@),
                None => None,
            },
            fatal: self.fatal,
        }
    }
}

/// Whether `kind` is a probe over HTTP, with or without TLS.
pub open spec fn is_http_kind(kind: ProbeKind) -> bool {
    kind == ProbeKind::Http || kind == ProbeKind::Https
}

/// The start of the URLs of a kind of HTTP probe.
pub open spec fn scheme_prefix(kind: ProbeKind) -> Seq<char> {
    if kind == ProbeKind::Https {
        seq!['h', 't', 't', 'p', 's', ':', '/', '/']
    } else {
        seq!['h', 't', 't', 'p', ':', '/', '/']
    }
}

/// The host part of a URL that stands for `address`: an address that
/// holds a colon, as every IPv6 address does, stands in square brackets;
/// any other stands as it is.
pub open spec fn bracketed(address: Seq<char>) -> Seq<char> {
    if address.contains(':') {
        seq!['['] + address + seq![']']
    } else {
        address
    }
}

/// The URL that a probe of `kind` asks at `address`, in normal form; `None`
/// where scheme and address make no URL.
pub open spec fn probe_url_text(kind: ProbeKind, address: Seq<char>) -> Option<Seq<char>> {
    url_text(scheme_prefix(kind) + bracketed(address))
}

/// The domain that owns a name: its last two labels joined by a dot, or
/// the whole name where it has fewer than two labels.
pub open spec fn domain_text(labels: Seq<Seq<char>>) -> Seq<char> {
    if labels.len() >= 2 {
        labels[labels.len() - 2] + seq!['.'] + labels[labels.len() - 1]
    } else {
        dotted(labels)
    }
}

/// The text of an empty JSON object, stored where there are no headers.
pub open spec fn empty_json() -> Seq<char> {
    seq!['{', '}']
}

/// A single space.
pub open spec fn space() -> Seq<char> {
    seq![' ']
}

/// Whether what was found is what a task of this kind looks for.
pub open spec fn fits(task: TaskView, found: FoundView) -> bool {
    match found {
        FoundView::CertName(_) => task.kind == ProbeKind::CertSearch,
        FoundView::Addresses(_) => task.kind == ProbeKind::DnsResolve,
        FoundView::Response { .. } => is_http_kind(task.kind) && task.address is Some && task.url
            is Some,
    }
}

/// The line printed for what a task found: the target's identity, what it
/// resolved to, the status and, for HTTP, the printed form of the headers.
pub open spec fn result_line(task: TaskView, found: FoundView) -> Seq<char> {
    match found {
        FoundView::CertName(name) => name,
        FoundView::Addresses(list) => dotted(task.labels) + space() + joined(list, space()),
        FoundView::Response { status, headers } => dotted(task.labels) + space()
            + task.address.unwrap() + space() + task.url.unwrap() + space() + decimal(
            status as nat,
        ) + space() + blob_text(json_object(headers)),
    }
}

/// The record written for what a task found.
pub open spec fn result_record(task: TaskView, found: FoundView) -> RecordView {
    match found {
        FoundView::CertName(name) => RecordView {
            kind: task.kind,
            identity: name,
            domain: dotted(task.labels),
            payload: PayloadView::Bare,
        },
        FoundView::Addresses(list) => RecordView {
            kind: task.kind,
            identity: dotted(task.labels),
            domain: domain_text(task.labels),
            payload: PayloadView::Addresses(list),
        },
        FoundView::Response { status, headers } => RecordView {
            kind: task.kind,
            identity: dotted(task.labels),
            domain: domain_text(task.labels),
            payload: PayloadView::Response {
                url: task.url.unwrap(),
                status,
                headers: json_object(headers),
            },
        },
    }
}

/// The record written for a task that found nothing or failed in passing:
/// no addresses for a resolution, status 0 and no headers for a request,
/// and no record at all for a certificate search.
pub open spec fn negative_record(task: TaskView) -> Option<RecordView> {
    if task.kind == ProbeKind::DnsResolve {
        Some(
            RecordView {
                kind: task.kind,
                identity: dotted(task.labels),
                domain: domain_text(task.labels),
                payload: PayloadView::Addresses(Seq::empty()),
            },
        )
    } else if is_http_kind(task.kind) && task.url is Some {
        Some(
            RecordView {
                kind: task.kind,
                identity: dotted(task.labels),
                domain: domain_text(task.labels),
                payload: PayloadView::Response {
                    url: task.url.unwrap(),
                    status: 0,
                    headers: empty_json(),
                },
            },
        )
    } else {
        None
    }
}

/// What the sink does with the outcome of a task. A find is printed, unless
/// output is suppressed, and recorded where persistence is on. A valid
/// negative and a transient failure are recorded as negatives and not
/// printed. An outcome that is not accounted for, and a find that does not
/// fit its task, stop the pipeline.
pub open spec fn delivered(policy: Policy, task: TaskView, outcome: OutcomeView) -> DeliveryView {
    match outcome {
        OutcomeView::Success(found) => if fits(task, found) {
            DeliveryView {
                line: if policy.quiet {
                    None
                } else {
                    Some(result_line(task, found))
                },
                record: if policy.persist {
                    Some(result_record(task, found))
                } else {
                    None
                },
                fatal: false,
            }
        } else {
            DeliveryView { line: None, record: None, fatal: true }
        },
        OutcomeView::NotFound | OutcomeView::TransientFailure => DeliveryView {
            line: None,
            record: if policy.persist {
                negative_record(task)
            } else {
                None
            },
            fatal: false,
        },
        OutcomeView::Unclassified => DeliveryView { line: None, record: None, fatal: true },
    }
}

/// Whether `text` holds a colon.
pub fn holds_colon(text: &str) -> (found: bool)
    ensures
        found == text@.contains(':'),
{
    broadcast use vstd::string::is_ascii_spec_bytes;

    let mut i: usize = 0;
    if text.is_ascii() {
        let bytes = text.as_bytes();
        let n = bytes.len();
        while i < n
            invariant
                0 <= i <= n,
                n == text@.len(),
                n == bytes@.len(),
                vstd::string::is_ascii(text),
                forall|j: int| 0 <= j < n ==> bytes@[j] == #[trigger] text@[j] as u8,
                forall|j: int| 0 <= j < i ==> #[trigger] text@[j] != ':',
            decreases n - i,
        {
            let b = bytes[i];
            assert(b == text@[i as int] as u8);
            assert('\0' <= text@[i as int] <= '\u{7f}');
            if b == 58 {
                assert(text@[i as int] == ':');
                return true;
            }
            i += 1;
        }
    } else {
        let n = text.unicode_len();
        while i < n
            invariant
                0 <= i <= n,
                n == text@.len(),
                forall|j: int| 0 <= j < i ==> #[trigger] text@[j] != ':',
            decreases n - i,
        {
            if text.get_char(i) == ':' {
                return true;
            }
            i += 1;
        }
    }
    false
}

/// The host part of a URL that stands for `address`.
pub fn bracket(address: &str) -> (host: String)
    ensures
        host@ == bracketed(address@),
{
    if holds_colon(address) {
        proof {
            reveal_strlit("[");
            reveal_strlit("]");
            assert("["@ =~= seq!['[']);
            assert("]"@ =~= seq![']']);
        }
        let mut host = "[".to_owned();
        host.append(address);
        host.append("]");
        host
    } else {
        address.to_owned()
    }
}

/// The URL that a probe of `kind` asks at `address`.
pub fn probe_url(kind: ProbeKind, address: &str) -> (url: Option<String>)
    ensures
        url.is_some() == probe_url_text(kind, address@).is_some(),
        url matches Some(text) ==> text@ == probe_url_text(kind, address@).unwrap(),
{
    proof {
        reveal_strlit("https://");
        reveal_strlit("http://");
        assert("https://"@ =~= seq!['h', 't', 't', 'p', 's', ':', '/', '/']);
        assert("http://"@ =~= seq!['h', 't', 't', 'p', ':', '/', '/']);
    }
    let mut raw = match kind {
        ProbeKind::Https => "https://".to_owned(),
        _ => "http://".to_owned(),
    };
    raw.append(bracket(address).as_str());
    url_parse(raw.as_str())
}

/// The domain that owns a name.
pub fn owning_domain(fqdn: &Fqdn) -> (domain: String)
    ensures
        domain@ == domain_text(fqdn@),
{
    if fqdn.0.len() >= 2 {
        fqdn.domain()
    } else {
        fqdn.to_text()
    }
}

impl ProbeTask {
    /// The line printed for what the task found.
    pub fn result_line(&self, found: &Payload) -> (line: String)
        requires
            fits(self@, found@),
        ensures
            line@ == result_line(self@, found@),
    {
        proof {
            reveal_strlit(" ");
            assert(" "@ =~= space());
        }
        match found {
            Payload::CertName(name) => name.clone(),
            Payload::Addresses(list) => {
                let mut line = self.fqdn.to_text();
                line.append(" ");
                line.append(join(list, " ").as_str());
                line
            },
            Payload::Response { status, headers } => {
                let mut line = self.fqdn.to_text();
                line.append(" ");
                match &self.address {
                    Some(address) => line.append(address.as_str()),
                    None => {},
                }
                line.append(" ");
                match &self.url {
                    Some(url) => line.append(url.as_str()),
                    None => {},
                }
                line.append(" ");
                line.append(decimal_text(*status).as_str());
                line.append(" ");
                line.append(headers.to_text().as_str());
                line
            },
        }
    }

    /// The record written for what the task found.
    pub fn result_record(&self, found: &Payload) -> (record: StoreRecord)
        requires
            fits(self@, found@),
        ensures
            record@ == result_record(self@, found@),
    {
        match found {
            Payload::CertName(name) => StoreRecord {
                kind: self.kind,
                identity: name.clone(),
                domain: self.fqdn.to_text(),
                payload: RecordPayload::Bare,
            },
            Payload::Addresses(list) => StoreRecord {
                kind: self.kind,
                identity: self.fqdn.to_text(),
                domain: owning_domain(&self.fqdn),
                payload: RecordPayload::Addresses(copy_texts(list)),
            },
            Payload::Response { status, headers } => {
                let url = match &self.url {
                    Some(url) => url.clone(),
                    None => String::new(),
                };
                StoreRecord {
                    kind: self.kind,
                    identity: self.fqdn.to_text(),
                    domain: owning_domain(&self.fqdn),
                    payload: RecordPayload::Response {
                        url,
                        status: *status,
                        headers: headers.to_json(),
                    },
                }
            },
        }
    }

    /// The record written where the task found nothing or failed in passing.
    pub fn negative_record(&self) -> (record: Option<StoreRecord>)
        ensures
            record.is_some() == negative_record(self@).is_some(),
            record matches Some(r) ==> r@ == negative_record(self@).unwrap(),
    {
        match self.kind {
            ProbeKind::CertSearch => None,
            ProbeKind::DnsResolve => {
                let none: Vec<String> = Vec::new();
                assert(texts(none@) =~= Seq::<Seq<char>>::empty());
                Some(
                    StoreRecord {
                        kind: self.kind,
                        identity: self.fqdn.to_text(),
                        domain: owning_domain(&self.fqdn),
                        payload: RecordPayload::Addresses(none),
                    },
                )
            },
            _ => match &self.url {
                Some(url) => {
                    proof {
                        reveal_strlit("{}");
                        assert("{}"@ =~= empty_json());
                    }
                    Some(
                        StoreRecord {
                            kind: self.kind,
                            identity: self.fqdn.to_text(),
                            domain: owning_domain(&self.fqdn),
                            payload: RecordPayload::Response {
                                url: url.clone(),
                                status: 0,
                                headers: "{}".to_owned(),
                            },
                        },
                    )
                },
                None => None,
            },
        }
    }

    /// Whether what was found is what the task looks for.
    pub fn fits(&self, found: &Payload) -> (yes: bool)
        ensures
            yes == fits(self@, found@),
    {
        match found {
            Payload::CertName(_) => self.kind == ProbeKind::CertSearch,
            Payload::Addresses(_) => self.kind == ProbeKind::DnsResolve,
            Payload::Response { .. } => (self.kind == ProbeKind::Http || self.kind
                == ProbeKind::Https) && self.address.is_some() && self.url.is_some(),
        }
    }

    /// What the sink does with the outcome of the task.
    pub fn deliver(&self, policy: &Policy, outcome: &ProbeOutcome) -> (delivery: Delivery)
        ensures
            delivery@ == delivered(*policy, self@, outcome@),
    {
        match outcome {
            ProbeOutcome::Success(found) => {
                if !self.fits(found) {
                    return Delivery { line: None, record: None, fatal: true };
                }
                let line = if policy.quiet {
                    None
                } else {
                    Some(self.result_line(found))
                };
                let record = if policy.persist {
                    Some(self.result_record(found))
                } else {
                    None
                };
                Delivery { line, record, fatal: false }
            },
            ProbeOutcome::NotFound | ProbeOutcome::TransientFailure => {
                let record = if policy.persist {
                    self.negative_record()
                } else {
                    None
                };
                Delivery { line: None, record, fatal: false }
            },
            ProbeOutcome::Unclassified => Delivery { line: None, record: None, fatal: true },
        }
    }
}

/// Nothing is printed and nothing is written for an outcome that stops the
/// pipeline, and nothing stops the pipeline but an outcome that is not
/// accounted for or a find that does not fit its task.
pub proof fn lemma_fatal_outcomes_leave_no_trace(policy: Policy, task: TaskView, outcome: OutcomeView)
    ensures
        delivered(policy, task, outcome).fatal ==> delivered(policy, task, outcome).line is None
            && delivered(policy, task, outcome).record is None,
        delivered(policy, task, outcome).fatal <==> outcome is Unclassified || (outcome matches OutcomeView::Success(
            found,
        ) && !fits(task, found)),
        outcome is TransientFailure || outcome is NotFound ==> !delivered(policy, task, outcome).fatal
            && delivered(policy, task, outcome).line is None,
        policy.quiet ==> delivered(policy, task, outcome).line is None,
        !policy.persist ==> delivered(policy, task, outcome).record is None,
{
}

} // verus!
