//! The driver of the pipeline: which targets are admitted, which probes they
//! start, and when the run stops.
//!
//! The driver decides and never waits. The caller reads the lines, asks the
//! store, runs the probes and writes the records, and tells the driver what
//! came of each step.

use crate::outcome::{classified, classify, OutcomeView, ProbeReport, ReportView};
use crate::sink::{
    delivered, is_http_kind, probe_url, probe_url_text, Delivery, DeliveryView, Policy, ProbeTask,
    TaskView,
};
use crate::store::{dedup_key, has_key, known_in, upserted, KnownKinds, ProbeKind, RecordView};
use crate::target::{option_text, read_line, LineError, LineFormat, Target, TargetView};
use vstd::prelude::*;

verus! {

/// The three pipelines that share this driver.
#[derive(Debug, Clone, Copy, PartialEq, Eq, Structural)]
pub enum Variant {
    /// Searches the certificate log for the names under one domain.
    CertSearch,
    /// Resolves every name read.
    DnsResolve,
    /// Asks every host read over HTTP and over HTTPS.
    HttpProbe,
}

/// The state of a run.
#[derive(Debug, Clone, Copy, PartialEq, Eq, Structural)]
pub struct Driver {
    pub variant: Variant,
    pub policy: Policy,
    /// No further target is admitted.
    pub stopped: bool,
    /// The run ends with an error.
    pub failed: bool,
}

/// What the driver decides about a line or a target.
#[derive(Debug, Clone)]
pub enum Admission {
    /// The run has stopped: nothing is admitted.
    Closed,
    /// The line gives no target, or its target cannot be probed: warn and
    /// read on.
    Rejected(LineError),
    /// Ask the store which kinds of probe it knows the target for, then
    /// come back with `plan`.
    Lookup(Target),
    /// Run these probes, each once it holds a token.
    Start(Vec<ProbeTask>),
}

/// An admission as plain values.
pub ghost enum AdmissionView {
    Closed,
    Rejected(LineError),
    Lookup(TargetView),
    Start(Seq<TaskView>),
}

/// The tasks of `list` as plain values.
pub open spec fn task_views(list: Seq<ProbeTask>) -> Seq<TaskView> {
    Seq::new(list.len(), |i: int| list[i]@)
}

impl View for Admission {
    type V = AdmissionView;

    open spec fn view(&self) -> AdmissionView {
        match self {
            Admission::Closed => AdmissionView::Closed,
            Admission::Rejected(e) => AdmissionView::Rejected(*e),
            Admission::Lookup(target) => AdmissionView::Lookup(target@),
            Admission::Start(tasks) => AdmissionView::Start(task_views(tasks@)),
        }
    }
}

/// The format of the lines a variant reads.
pub open spec fn line_format(variant: Variant) -> LineFormat {
    match variant {
        Variant::HttpProbe => LineFormat::NameAndAddress,
        _ => LineFormat::Name,
    }
}

/// Whether known targets are skipped: persistence is on and re-probing is
/// not forced.
pub open spec fn dedup_active(policy: Policy) -> bool {
    policy.persist && !policy.force_reprobe
}

/// Whether a probe of `kind` is wanted for a target of which `known` is
/// known.
pub open spec fn wanted(policy: Policy, known: KnownKinds, kind: ProbeKind) -> bool {
    !(dedup_active(policy) && known.holds(kind))
}

/// The task that probes `target` with `kind`; `None` where a probe over
/// HTTP has no address to reach or no URL to ask.
pub open spec fn task_of(kind: ProbeKind, target: TargetView) -> Option<TaskView> {
    if is_http_kind(kind) {
        if target.address is Some && probe_url_text(kind, target.address.unwrap()) is Some {
            Some(
                TaskView {
                    kind,
                    labels: target.labels,
                    address: target.address,
                    url: probe_url_text(kind, target.address.unwrap()),
                },
            )
        } else {
            None
        }
    } else {
        Some(TaskView { kind, labels: target.labels, address: None, url: None })
    }
}

/// The tasks for one kind: none where the probe is not wanted, one where it
/// is; `None` where the wanted probe cannot be set up, as for a host at an
/// address that makes no URL.
pub open spec fn planned_kind(
    policy: Policy,
    known: KnownKinds,
    kind: ProbeKind,
    target: TargetView,
) -> Option<Seq<TaskView>> {
    if !wanted(policy, known, kind) {
        Some(Seq::empty())
    } else if task_of(kind, target) is Some {
        Some(seq![task_of(kind, target).unwrap()])
    } else {
        None
    }
}

/// The tasks a target starts; `None` where one of them cannot be set up.
pub open spec fn planned(
    variant: Variant,
    policy: Policy,
    known: KnownKinds,
    target: TargetView,
) -> Option<Seq<TaskView>> {
    match variant {
        Variant::CertSearch => planned_kind(policy, known, ProbeKind::CertSearch, target),
        Variant::DnsResolve => planned_kind(policy, known, ProbeKind::DnsResolve, target),
        Variant::HttpProbe => {
            let http = planned_kind(policy, known, ProbeKind::Http, target);
            let https = planned_kind(policy, known, ProbeKind::Https, target);
            if http is Some && https is Some {
                Some(http.unwrap() + https.unwrap())
            } else {
                None
            }
        },
    }
}

impl Driver {
    /// A run that failed has stopped.
    pub open spec fn wf(self) -> bool {
        self.failed ==> self.stopped
    }

    /// Whether `next` may follow this state of a run.
    pub open spec fn follows(self, next: Driver) -> bool {
        &&& next.variant == self.variant
        &&& next.policy == self.policy
        &&& self.stopped ==> next.stopped
        &&& self.failed ==> next.failed
        &&& next.wf()
    }

    /// The driver after a failure that ends the run.
    pub open spec fn halted(self) -> Driver {
        Driver { stopped: true, failed: true, ..self }
    }

    /// What becomes of a target of which `known` is known: nothing once the
    /// run has stopped, else its tasks. A target for which a task cannot be
    /// set up is turned away alone, as a malformed line is: the run goes on.
    pub open spec fn planning(self, target: TargetView, known: KnownKinds) -> AdmissionView {
        if self.stopped {
            AdmissionView::Closed
        } else {
            match planned(self.variant, self.policy, known, target) {
                Some(tasks) => AdmissionView::Start(tasks),
                None => AdmissionView::Rejected(LineError::Url),
            }
        }
    }

    /// What becomes of a line: nothing once the run has stopped; a warning
    /// where it gives no target; a question to the store where known
    /// targets are skipped; else the target's tasks.
    pub open spec fn offering(self, line: Seq<char>, address: Option<Seq<char>>) -> AdmissionView {
        if self.stopped {
            AdmissionView::Closed
        } else {
            match read_line(line_format(self.variant), self.policy.strict_names, line, address) {
                Err(e) => AdmissionView::Rejected(e),
                Ok(target) => if dedup_active(self.policy) {
                    AdmissionView::Lookup(target)
                } else {
                    self.planning(
                        target,
                        KnownKinds { cert: false, dns: false, http: false, https: false },
                    )
                },
            }
        }
    }

    /// What becomes of a report: the sink's delivery of the classified
    /// outcome, and the end of the run where that outcome is fatal.
    pub open spec fn completing(self, task: TaskView, report: ReportView) -> (Driver, DeliveryView) {
        let delivery = delivered(self.policy, task, classified(task.kind, report));
        if delivery.fatal {
            (self.halted(), delivery)
        } else {
            (self, delivery)
        }
    }

    /// The driver after a write to the store that went well or did not.
    pub open spec fn persisting(self, written: bool) -> Driver {
        if written {
            self
        } else {
            self.halted()
        }
    }

    /// A driver at the start of a run.
    pub fn new(variant: Variant, policy: Policy) -> (driver: Driver)
        ensures
            driver == (Driver { variant, policy, stopped: false, failed: false }),
    {
        Driver { variant, policy, stopped: false, failed: false }
    }

    /// Decides about one line of input. `address` is the canonical text of
    /// the address that the line holds after its first space, or `None`
    /// where it holds none. No line changes the state of the run.
    pub fn offer(&self, line: &str, address: Option<String>) -> (admission: Admission)
        ensures
            admission@ == self.offering(line@, option_text(address)),
    {
        if self.stopped {
            return Admission::Closed;
        }
        let format = match self.variant {
            Variant::HttpProbe => LineFormat::NameAndAddress,
            _ => LineFormat::Name,
        };
        match Target::read(format, self.policy.strict_names, line, address) {
            Err(e) => Admission::Rejected(e),
            Ok(target) => if self.policy.persist && !self.policy.force_reprobe {
                Admission::Lookup(target)
            } else {
                self.plan(target, KnownKinds::none())
            },
        }
    }

    /// The task that probes `target` with `kind`.
    pub fn task(kind: ProbeKind, target: &Target) -> (task: Option<ProbeTask>)
        ensures
            task.is_some() == task_of(kind, target@).is_some(),
            task matches Some(t) ==> t@ == task_of(kind, target@).unwrap(),
    {
        match kind {
            ProbeKind::Http | ProbeKind::Https => match target {
                Target::Host { fqdn, address } => match probe_url(kind, address.as_str()) {
                    Some(url) => Some(
                        ProbeTask {
                            kind,
                            fqdn: fqdn.copy(),
                            address: Some(address.clone()),
                            url: Some(url),
                        },
                    ),
                    None => None,
                },
                Target::Name(_) => None,
            },
            _ => Some(ProbeTask { kind, fqdn: target.fqdn().copy(), address: None, url: None }),
        }
    }

    /// Adds to `tasks` the task of one kind, where it is wanted. Gives
    /// `false` where the wanted task cannot be set up.
    fn plan_kind(&self, kind: ProbeKind, target: &Target, known: KnownKinds, tasks: &mut Vec<ProbeTask>) -> (ok:
        bool)
        ensures
            ok == planned_kind(self.policy, known, kind, target@).is_some(),
            ok ==> task_views(final(tasks)@) == task_views(old(tasks)@) + planned_kind(
                self.policy,
                known,
                kind,
                target@,
            ).unwrap(),
            !ok ==> final(tasks)@ == old(tasks)@,
    {
        if self.policy.persist && !self.policy.force_reprobe && known.knows(kind) {
            assert(task_views(tasks@) + Seq::<TaskView>::empty() =~= task_views(tasks@));
            return true;
        }
        match Driver::task(kind, target) {
            Some(task) => {
                let ghost before = tasks@;
                tasks.push(task);
                assert(task_views(tasks@) =~= task_views(before) + seq![task@]);
                true
            },
            None => false,
        }
    }

    /// Decides which probes a target starts, given what the store knows of
    /// it. No target changes the state of the run.
    pub fn plan(&self, target: Target, known: KnownKinds) -> (admission: Admission)
        ensures
            admission@ == self.planning(target@, known),
    {
        if self.stopped {
            return Admission::Closed;
        }
        let mut tasks: Vec<ProbeTask> = Vec::new();
        assert(task_views(tasks@) =~= Seq::<TaskView>::empty());
        let ok = match self.variant {
            Variant::CertSearch => self.plan_kind(ProbeKind::CertSearch, &target, known, &mut tasks),
            Variant::DnsResolve => self.plan_kind(ProbeKind::DnsResolve, &target, known, &mut tasks),
            Variant::HttpProbe => {
                let http = self.plan_kind(ProbeKind::Http, &target, known, &mut tasks);
                http && self.plan_kind(ProbeKind::Https, &target, known, &mut tasks)
            },
        };
        if ok {
            proof {
                let plan = planned(self.variant, self.policy, known, target@).unwrap();
                assert(Seq::<TaskView>::empty() + plan =~= plan);
                if self.variant == Variant::HttpProbe {
                    let http = planned_kind(self.policy, known, ProbeKind::Http, target@).unwrap();
                    let https = planned_kind(self.policy, known, ProbeKind::Https, target@).unwrap();
                    assert((Seq::<TaskView>::empty() + http) + https =~= http + https);
                }
            }
            Admission::Start(tasks)
        } else {
            Admission::Rejected(LineError::Url)
        }
    }

    /// Takes the report of a finished probe: classifies it, hands the
    /// outcome to the sink and stops the run where the outcome is fatal.
    /// Probes that were started before the run stopped are taken as any
    /// other.
    pub fn complete(&mut self, task: &ProbeTask, report: ProbeReport) -> (delivery: Delivery)
        ensures
            (*final(self), delivery@) == old(self).completing(task@, report@),
    {
        let outcome = classify(task.kind, report);
        let delivery = task.deliver(&self.policy, &outcome);
        if delivery.fatal {
            self.stopped = true;
            self.failed = true;
        }
        delivery
    }

    /// Takes note of a write to the store: one that failed stops the run.
    pub fn persisted(&mut self, written: bool)
        ensures
            *final(self) == old(self).persisting(written),
    {
        if !written {
            self.stopped = true;
            self.failed = true;
        }
    }

    /// Whether a further line may be read.
    pub fn is_open(&self) -> (open: bool)
        ensures
            open == !self.stopped,
    {
        !self.stopped
    }

    /// The exit status of the run: zero unless it failed.
    pub fn exit_status(&self) -> (status: u8)
        ensures
            status == if self.failed {
                1u8
            } else {
                0u8
            },
    {
        if self.failed {
            1
        } else {
            0
        }
    }
}

/// A malformed line is answered with a warning and nothing else: no probe
/// starts and nothing is asked of the store. The driver is as it was, since
/// no line changes it, so the lines that follow are treated as if the
/// malformed one had not come.
pub proof fn lemma_malformed_line_is_skipped(
    driver: Driver,
    line: Seq<char>,
    address: Option<Seq<char>>,
)
    requires
        !driver.stopped,
        read_line(line_format(driver.variant), driver.policy.strict_names, line, address) is Err,
    ensures
        driver.offering(line, address) == AdmissionView::Rejected(
            read_line(
                line_format(driver.variant),
                driver.policy.strict_names,
                line,
                address,
            )->Err_0,
        ),
{
}

/// No target ends a run: a target whose probe cannot be set up, such as a
/// host at an address that makes no URL, is turned away with a warning, and
/// whatever is decided about a line or a target leaves the run open.
pub proof fn lemma_no_target_ends_the_run(
    driver: Driver,
    line: Seq<char>,
    address: Option<Seq<char>>,
    target: TargetView,
    known: KnownKinds,
)
    requires
        !driver.stopped,
    ensures
        !(driver.offering(line, address) is Closed),
        !(driver.planning(target, known) is Closed),
        planned(driver.variant, driver.policy, known, target) is None ==> driver.planning(
            target,
            known,
        ) == AdmissionView::Rejected(LineError::Url),
        driver.planning(target, known) matches AdmissionView::Rejected(e) ==> e == LineError::Url,
{
}

/// What the driver decides about each of `lines`, each line given with the
/// address found in it.
pub open spec fn admissions(driver: Driver, lines: Seq<(Seq<char>, Option<Seq<char>>)>) -> Seq<
    AdmissionView,
> {
    Seq::new(lines.len(), |i: int| driver.offering(lines[i].0, lines[i].1))
}

/// No target is lost or gained through a malformed line elsewhere in the
/// input: what the driver decides about the other lines is the same with
/// the malformed line and without it.
pub proof fn lemma_malformed_line_does_not_touch_the_others(
    driver: Driver,
    lines: Seq<(Seq<char>, Option<Seq<char>>)>,
    at: int,
)
    requires
        0 <= at < lines.len(),
        read_line(
            line_format(driver.variant),
            driver.policy.strict_names,
            lines[at].0,
            lines[at].1,
        ) is Err,
    ensures
        admissions(driver, lines.remove(at)) == admissions(driver, lines).remove(at),
        !(admissions(driver, lines)[at] is Start),
        !(admissions(driver, lines)[at] is Lookup),
{
    assert(admissions(driver, lines.remove(at)) =~= admissions(driver, lines).remove(at));
}

/// With persistence on and re-probing not forced, no probe starts for a
/// kind of which the store holds a record: neither from the line itself nor
/// from the store's answer.
pub proof fn lemma_known_target_is_not_probed(
    driver: Driver,
    line: Seq<char>,
    address: Option<Seq<char>>,
    target: TargetView,
    known: KnownKinds,
)
    requires
        dedup_active(driver.policy),
    ensures
        !(driver.offering(line, address) is Start),
        driver.planning(target, known) matches AdmissionView::Start(tasks) ==> forall|i: int|
            0 <= i < tasks.len() ==> !known.holds((#[trigger] tasks[i]).kind),
        known.cert && known.dns && known.http && known.https ==> driver.planning(target, known)
            is Closed || driver.planning(target, known) == AdmissionView::Start(Seq::empty()),
{
    let plan = planned(driver.variant, driver.policy, known, target);
    if known.cert && known.dns && known.http && known.https && !driver.stopped {
        assert(plan.unwrap() =~= Seq::<TaskView>::empty());
    }
}

/// The same holds of what the store itself knows: a target of whose kind a
/// record is stored is not probed for that kind.
pub proof fn lemma_stored_target_is_not_probed(
    driver: Driver,
    rows: Seq<RecordView>,
    target: TargetView,
    kind: ProbeKind,
)
    requires
        dedup_active(driver.policy),
        has_key(rows, dedup_key(kind, target.labels)),
    ensures
        driver.planning(target, known_in(rows, target.labels)) matches AdmissionView::Start(
            tasks,
        ) ==> forall|i: int| 0 <= i < tasks.len() ==> (#[trigger] tasks[i]).kind != kind,
{
}

/// What is written for a resolution or a request is found again: the record
/// of a task stands under the key by which its target is looked up, so once
/// it is written the target is known, and is not probed for that kind again.
pub proof fn lemma_recorded_target_is_known(
    driver: Driver,
    rows: Seq<RecordView>,
    target: TargetView,
    task: TaskView,
    outcome: OutcomeView,
)
    requires
        dedup_active(driver.policy),
        task.kind != ProbeKind::CertSearch,
        task.labels == target.labels,
        delivered(driver.policy, task, outcome).record is Some,
    ensures
        ({
            let record = delivered(driver.policy, task, outcome).record.unwrap();
            let after = upserted(rows, record);
            &&& record.key() == dedup_key(task.kind, target.labels)
            &&& has_key(after, dedup_key(task.kind, target.labels))
            &&& driver.planning(target, known_in(after, target.labels)) matches AdmissionView::Start(
                tasks,
            ) ==> forall|i: int| 0 <= i < tasks.len() ==> (#[trigger] tasks[i]).kind != task.kind
        }),
{
    let record = delivered(driver.policy, task, outcome).record.unwrap();
    crate::store::lemma_upsert_keeps_the_key(rows, record);
}

/// A run stops on a fatal outcome and on a failed write, and on nothing
/// else that a probe reports: a transient failure and a valid negative
/// leave the driver as it was.
pub proof fn lemma_only_fatal_outcomes_stop_the_run(driver: Driver, task: TaskView, report: ReportView)
    ensures
        classified(task.kind, report) is TransientFailure || classified(task.kind, report)
            is NotFound ==> driver.completing(task, report).0 == driver,
        classified(task.kind, report) is Unclassified ==> driver.completing(task, report).0.stopped
            && driver.completing(task, report).0.failed,
        driver.completing(task, report).0.stopped ==> driver.stopped || driver.completing(
            task,
            report,
        ).1.fatal,
        driver.persisting(true) == driver,
        driver.persisting(false).stopped && driver.persisting(false).failed,
{
}

/// Whatever is reported to a run, it keeps its variant and its policy, it
/// does not reopen once it has stopped, it does not recover once it has
/// failed, and it has stopped where it has failed.
pub proof fn lemma_run_never_reopens(
    driver: Driver,
    task: TaskView,
    report: ReportView,
    written: bool,
)
    requires
        driver.wf(),
    ensures
        driver.follows(driver.completing(task, report).0),
        driver.follows(driver.persisting(written)),
{
}

/// Once stopped, a run admits nothing: no line and no target starts a
/// probe.
pub proof fn lemma_stopped_run_admits_nothing(
    driver: Driver,
    line: Seq<char>,
    address: Option<Seq<char>>,
    target: TargetView,
    known: KnownKinds,
)
    requires
        driver.stopped,
    ensures
        driver.offering(line, address) == AdmissionView::Closed,
        driver.planning(target, known) == AdmissionView::Closed,
{
}

} // verus!
