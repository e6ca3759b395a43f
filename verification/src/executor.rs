//! The executor's bookkeeping: which admitted probes wait, which are under
//! way, and when a further line may be read.
//!
//! The caller runs the probes. It asks here which task to start next and
//! whether to read on, and says when a probe has finished.

use crate::admission::InFlightWindow;
use crate::pipeline::{task_views, Driver};
use crate::sink::{ProbeTask, TaskView};
use vstd::prelude::*;

verus! {

/// The tasks that wait for a place, first come first, and the window of
/// those under way.
#[derive(Debug, Clone)]
pub struct Executor {
    pub window: InFlightWindow,
    pub waiting: Vec<ProbeTask>,
}

/// An executor as plain values.
pub ghost struct ExecutorView {
    pub window: InFlightWindow,
    pub waiting: Seq<TaskView>,
}

impl View for Executor {
    type V = ExecutorView;

    open spec fn view(&self) -> ExecutorView {
        ExecutorView { window: self.window, waiting: task_views(self.waiting@) }
    }
}

impl ExecutorView {
    /// Whether a waiting task may start: there is one, there is room for
    /// it, and the run has not stopped.
    pub open spec fn may_start(self, driver: Driver) -> bool {
        !driver.stopped && self.waiting.len() > 0 && self.window.in_flight < self.window.limit
    }

    /// Whether a further line may be read: the run has not stopped, no task
    /// waits, and there is room for a probe.
    pub open spec fn wants_input(self, driver: Driver) -> bool {
        !driver.stopped && self.waiting.len() == 0 && self.window.in_flight < self.window.limit
    }

    /// The executor after it was asked for the next task to start, and the
    /// task it gave. Once the run has stopped, the tasks that still wait are
    /// dropped; those under way are left to finish.
    pub open spec fn starting(self, driver: Driver) -> (ExecutorView, Option<TaskView>) {
        if driver.stopped {
            (ExecutorView { waiting: Seq::empty(), ..self }, None)
        } else if self.may_start(driver) {
            (
                ExecutorView {
                    window: InFlightWindow {
                        in_flight: (self.window.in_flight + 1) as usize,
                        ..self.window
                    },
                    waiting: self.waiting.drop_first(),
                },
                Some(self.waiting[0]),
            )
        } else {
            (self, None)
        }
    }

    /// Whether nothing waits and nothing is under way.
    pub open spec fn is_idle(self) -> bool {
        self.waiting.len() == 0 && self.window.in_flight == 0
    }
}

impl Executor {
    /// No more probes are under way than the window allows.
    pub open spec fn wf(&self) -> bool {
        self.window.wf()
    }

    /// An executor with nothing to do, whose window lets at most `limit`
    /// probes run at once, and at least one.
    pub fn new(limit: usize) -> (executor: Executor)
        ensures
            executor.wf(),
            executor@.is_idle(),
            executor.window.limit == if limit == 0 {
                1usize
            } else {
                limit
            },
    {
        let limit = if limit == 0 {
            1
        } else {
            limit
        };
        let executor = Executor { window: InFlightWindow::new(limit), waiting: Vec::new() };
        assert(task_views(executor.waiting@) =~= Seq::<TaskView>::empty());
        executor
    }

    /// Whether a further line may be read.
    pub fn wants_input(&self, driver: &Driver) -> (wanted: bool)
        ensures
            wanted == self@.wants_input(*driver),
    {
        driver.is_open() && self.waiting.len() == 0 && self.window.has_room()
    }

    /// Takes the tasks of an admitted target; they wait behind those that
    /// wait already.
    pub fn enqueue(&mut self, tasks: Vec<ProbeTask>)
        ensures
            final(self)@ == (ExecutorView {
                waiting: old(self)@.waiting + task_views(tasks@),
                ..old(self)@
            }),
    {
        let ghost before = self.waiting@;
        let ghost incoming = tasks@;
        let mut rest = tasks;
        self.waiting.append(&mut rest);
        assert(task_views(before + incoming) =~= task_views(before) + task_views(incoming));
    }

    /// The next task to start, if one may start now.
    pub fn start_next(&mut self, driver: &Driver) -> (task: Option<ProbeTask>)
        ensures
            final(self)@ == old(self)@.starting(*driver).0,
            task.is_some() == old(self)@.starting(*driver).1.is_some(),
            task matches Some(t) ==> t@ == old(self)@.starting(*driver).1.unwrap(),
            old(self).wf() ==> final(self).wf(),
    {
        if !driver.is_open() {
            self.waiting.clear();
            assert(task_views(self.waiting@) =~= Seq::<TaskView>::empty());
            return None;
        }
        if self.waiting.len() > 0 && self.window.has_room() {
            let ghost before = self.waiting@;
            self.window.try_enter();
            let task = self.waiting.remove(0);
            assert(task_views(before.remove(0)) =~= task_views(before).drop_first());
            Some(task)
        } else {
            None
        }
    }

    /// Takes note that a probe under way has finished.
    pub fn finished(&mut self)
        ensures
            final(self)@.waiting == old(self)@.waiting,
            final(self).window.limit == old(self).window.limit,
            final(self).window.in_flight == if old(self).window.in_flight > 0 {
                old(self).window.in_flight - 1
            } else {
                0
            },
            old(self).wf() ==> final(self).wf(),
    {
        self.window.leave();
    }

    /// Whether nothing waits and nothing is under way.
    pub fn is_idle(&self) -> (idle: bool)
        ensures
            idle == self@.is_idle(),
    {
        self.waiting.len() == 0 && self.window.is_drained()
    }
}

/// Once the run has stopped, no task starts and no line is read, and what
/// waited is dropped; while it runs, tasks start in the order in which they
/// came, and never more at once than the window allows.
pub proof fn lemma_executor_respects_the_run(executor: ExecutorView, driver: Driver)
    requires
        executor.window.wf(),
    ensures
        driver.stopped ==> executor.starting(driver).1 is None && !executor.wants_input(driver)
            && executor.starting(driver).0.waiting.len() == 0 && executor.starting(
            driver,
        ).0.window == executor.window,
        executor.starting(driver).0.window.wf(),
        executor.starting(driver).1 matches Some(task) ==> task == executor.waiting[0]
            && executor.window.in_flight < executor.window.limit,
        executor.wants_input(driver) ==> executor.starting(driver).1 is None,
{
}

} // verus!
