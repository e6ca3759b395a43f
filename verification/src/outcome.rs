//! What a probe reports, and how the report is classified.
//!
//! The caller performs the round trip and hands in what came back as plain
//! values: the names, addresses or response it received, or the kind of
//! failure it met. The classification decides what the pipeline does next.

use crate::headers::{grouped, wire_view, AnonymizedHttpHeaders, WireHeader};
use crate::store::ProbeKind;
use crate::text::texts;
use vstd::prelude::*;

verus! {

/// The ways a name resolution fails.
#[derive(Debug, Clone, Copy, PartialEq, Eq, Structural)]
pub enum DnsFailure {
    /// The server answered that the name has no records.
    NoRecordsFound,
    /// No server could be reached.
    NoConnections,
    /// Reading or writing the socket failed.
    Io,
    /// The answer violated the protocol.
    Proto,
    /// No answer came in time.
    Timeout,
    /// The resolver gave a message and no cause.
    Message,
    /// Any failure the resolver has no kind for.
    Other,
}

/// The ways an HTTP round trip fails.
#[derive(Debug, Clone, Copy, PartialEq, Eq, Structural)]
pub enum HttpFailure {
    /// No answer came in time.
    Timeout,
    /// The connection, or its TLS session, could not be set up.
    Connect,
    /// The request could not be sent or was cut off.
    Request,
    /// The request could not be built.
    Builder,
    /// The answer asked for a redirect that is not followed.
    Redirect,
    /// The body could not be read or decoded.
    Body,
    /// Any failure the client has no kind for.
    Other,
}

/// What came back from one probe.
#[derive(Debug, Clone)]
pub enum ProbeReport {
    /// A name found in the certificate log.
    CertName(String),
    /// The certificate log query broke off.
    CertFailure,
    /// The addresses a name resolved to.
    Resolved(Vec<String>),
    /// The resolution failed.
    DnsFailure(DnsFailure),
    /// The endpoint answered with a status and headers.
    Response { status: u16, headers: Vec<WireHeader> },
    /// The request failed.
    HttpFailure(HttpFailure),
}

/// What a successful probe found.
#[derive(Debug, Clone)]
pub enum Payload {
    CertName(String),
    Addresses(Vec<String>),
    Response { status: u16, headers: AnonymizedHttpHeaders },
}

/// The classified result of one probe.
#[derive(Debug, Clone)]
pub enum ProbeOutcome {
    /// The probe found something.
    Success(Payload),
    /// The probe worked and there is nothing to find.
    NotFound,
    /// The probe failed in a way the pipeline recovers from.
    TransientFailure,
    /// The probe failed in a way that nothing here accounts for; the
    /// pipeline stops.
    Unclassified,
}

/// A report as plain values.
pub ghost enum ReportView {
    CertName(Seq<char>),
    CertFailure,
    Resolved(Seq<Seq<char>>),
    DnsFailure(DnsFailure),
    Response { status: u16, headers: Seq<(Seq<char>, Seq<u8>)> },
    HttpFailure(HttpFailure),
}

/// A payload as plain values.
pub ghost enum FoundView {
    CertName(Seq<char>),
    Addresses(Seq<Seq<char>>),
    Response { status: u16, headers: Seq<(Seq<char>, Seq<Seq<char>>)> },
}

/// An outcome as plain values.
pub ghost enum OutcomeView {
    Success(FoundView),
    NotFound,
    TransientFailure,
    Unclassified,
}

impl View for ProbeReport {
    type V = ReportView;

    open spec fn view(&self) -> ReportView {
        match self {
            ProbeReport::CertName(name) => ReportView::CertName(name@),
            ProbeReport::CertFailure => ReportView::CertFailure,
            ProbeReport::Resolved(list) => ReportView::Resolved(texts(list@)),
            ProbeReport::DnsFailure(failure) => ReportView::DnsFailure(*failure),
            ProbeReport::Response { status, headers } => ReportView::Response {
                status: *status,
                headers: wire_view(headers@),
            },
            ProbeReport::HttpFailure(failure) => ReportView::HttpFailure(*failure),
        }
    }
}

impl View for Payload {
    type V = FoundView;

    open spec fn view(&self) -> FoundView {
        match self {
            Payload::CertName(name) => FoundView::CertName(name@),
            Payload::Addresses(list) => FoundView::Addresses(texts(list@)),
            Payload::Response { status, headers } => FoundView::Response {
                status: *status,
                headers: headers@,
            },
        }
    }
}

impl View for ProbeOutcome {
    type V = OutcomeView;

    open spec fn view(&self) -> OutcomeView {
        match self {
            ProbeOutcome::Success(found) => OutcomeView::Success(found@),
            ProbeOutcome::NotFound => OutcomeView::NotFound,
            ProbeOutcome::TransientFailure => OutcomeView::TransientFailure,
            ProbeOutcome::Unclassified => OutcomeView::Unclassified,
        }
    }
}

/// How a failed resolution is classified: a name without records is a valid
/// negative, and every other failure to resolve is transient.
pub open spec fn classified_dns_failure(failure: DnsFailure) -> OutcomeView {
    match failure {
        DnsFailure::NoRecordsFound => OutcomeView::NotFound,
        _ => OutcomeView::TransientFailure,
    }
}

/// How a failed request is classified: a failure to connect, to secure the
/// connection, to send or to get an answer in time is transient; any other
/// is not accounted for.
pub open spec fn classified_http_failure(failure: HttpFailure) -> OutcomeView {
    match failure {
        HttpFailure::Timeout | HttpFailure::Connect | HttpFailure::Request =>
            OutcomeView::TransientFailure,
        HttpFailure::Builder | HttpFailure::Redirect | HttpFailure::Body | HttpFailure::Other =>
            OutcomeView::Unclassified,
    }
}

/// The outcome of a probe of `kind` that reported `report`. Every response
/// is a find, whatever its status. A report that does not belong to the
/// kind is not accounted for.
pub open spec fn classified(kind: ProbeKind, report: ReportView) -> OutcomeView {
    match (kind, report) {
        (ProbeKind::CertSearch, ReportView::CertName(name)) => OutcomeView::Success(
            FoundView::CertName(name),
        ),
        (ProbeKind::DnsResolve, ReportView::Resolved(list)) => if list.len() == 0 {
            OutcomeView::NotFound
        } else {
            OutcomeView::Success(FoundView::Addresses(list))
        },
        (ProbeKind::DnsResolve, ReportView::DnsFailure(failure)) => classified_dns_failure(failure),
        (ProbeKind::Http, ReportView::Response { status, headers })
        | (ProbeKind::Https, ReportView::Response { status, headers }) => OutcomeView::Success(
            FoundView::Response { status, headers: grouped(headers) },
        ),
        (ProbeKind::Http, ReportView::HttpFailure(failure))
        | (ProbeKind::Https, ReportView::HttpFailure(failure)) => classified_http_failure(
            failure,
        ),
        _ => OutcomeView::Unclassified,
    }
}

/// Classifies a failed resolution.
pub fn classify_dns_failure(failure: DnsFailure) -> (outcome: ProbeOutcome)
    ensures
        outcome@ == classified_dns_failure(failure),
{
    match failure {
        DnsFailure::NoRecordsFound => ProbeOutcome::NotFound,
        DnsFailure::NoConnections => ProbeOutcome::TransientFailure,
        DnsFailure::Io => ProbeOutcome::TransientFailure,
        DnsFailure::Proto => ProbeOutcome::TransientFailure,
        DnsFailure::Timeout => ProbeOutcome::TransientFailure,
        DnsFailure::Message => ProbeOutcome::TransientFailure,
        DnsFailure::Other => ProbeOutcome::TransientFailure,
    }
}

/// Classifies a failed request.
pub fn classify_http_failure(failure: HttpFailure) -> (outcome: ProbeOutcome)
    ensures
        outcome@ == classified_http_failure(failure),
{
    match failure {
        HttpFailure::Timeout => ProbeOutcome::TransientFailure,
        HttpFailure::Connect => ProbeOutcome::TransientFailure,
        HttpFailure::Request => ProbeOutcome::TransientFailure,
        HttpFailure::Builder => ProbeOutcome::Unclassified,
        HttpFailure::Redirect => ProbeOutcome::Unclassified,
        HttpFailure::Body => ProbeOutcome::Unclassified,
        HttpFailure::Other => ProbeOutcome::Unclassified,
    }
}

/// Classifies what a probe of `kind` reported.
pub fn classify(kind: ProbeKind, report: ProbeReport) -> (outcome: ProbeOutcome)
    ensures
        outcome@ == classified(kind, report@),
{
    match report {
        ProbeReport::CertName(name) => match kind {
            ProbeKind::CertSearch => ProbeOutcome::Success(Payload::CertName(name)),
            _ => ProbeOutcome::Unclassified,
        },
        ProbeReport::CertFailure => ProbeOutcome::Unclassified,
        ProbeReport::Resolved(list) => match kind {
            ProbeKind::DnsResolve => if list.len() == 0 {
                ProbeOutcome::NotFound
            } else {
                ProbeOutcome::Success(Payload::Addresses(list))
            },
            _ => ProbeOutcome::Unclassified,
        },
        ProbeReport::DnsFailure(failure) => match kind {
            ProbeKind::DnsResolve => classify_dns_failure(failure),
            _ => ProbeOutcome::Unclassified,
        },
        ProbeReport::Response { status, headers } => match kind {
            ProbeKind::Http | ProbeKind::Https => ProbeOutcome::Success(
                Payload::Response { status, headers: AnonymizedHttpHeaders::from_wire(&headers) },
            ),
            _ => ProbeOutcome::Unclassified,
        },
        ProbeReport::HttpFailure(failure) => match kind {
            ProbeKind::Http | ProbeKind::Https => classify_http_failure(failure),
            _ => ProbeOutcome::Unclassified,
        },
    }
}

} // verus!
