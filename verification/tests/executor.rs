use grimoire::executor::Executor;
use grimoire::pipeline::{Admission, Driver, Variant};
use grimoire::sink::{Policy, ProbeTask};

fn driver() -> Driver {
    let policy = Policy { persist: false, force_reprobe: false, quiet: false, strict_names: false };
    Driver::new(Variant::DnsResolve, policy)
}

fn tasks(driver: &Driver, names: &[&str]) -> Vec<ProbeTask> {
    let mut all = Vec::new();
    for name in names {
        match driver.offer(name, None) {
            Admission::Start(tasks) => all.extend(tasks),
            other => panic!("{other:?}"),
        }
    }
    all
}

#[test]
fn tasks_start_in_order_and_within_the_window() {
    let driver = driver();
    let mut executor = Executor::new(2);
    assert!(executor.is_idle());
    assert!(executor.wants_input(&driver));
    executor.enqueue(tasks(&driver, &["a.example.com", "b.example.com", "c.example.com"]));
    assert!(!executor.wants_input(&driver));
    assert!(!executor.is_idle());
    assert_eq!(executor.start_next(&driver).unwrap().fqdn.to_text(), "a.example.com");
    assert_eq!(executor.start_next(&driver).unwrap().fqdn.to_text(), "b.example.com");
    assert!(executor.start_next(&driver).is_none());
    assert_eq!(executor.window.in_flight, 2);
    assert_eq!(executor.waiting.len(), 1);
    executor.finished();
    assert_eq!(executor.start_next(&driver).unwrap().fqdn.to_text(), "c.example.com");
    assert!(executor.start_next(&driver).is_none());
    assert!(!executor.wants_input(&driver));
    executor.finished();
    assert!(executor.wants_input(&driver));
    assert!(!executor.is_idle());
    executor.finished();
    assert!(executor.is_idle());
}

#[test]
fn later_tasks_wait_behind_earlier_ones() {
    let driver = driver();
    let mut executor = Executor::new(1);
    executor.enqueue(tasks(&driver, &["a.example.com"]));
    executor.enqueue(tasks(&driver, &["b.example.com"]));
    executor.enqueue(vec![]);
    assert_eq!(executor.waiting.len(), 2);
    assert_eq!(executor.start_next(&driver).unwrap().fqdn.to_text(), "a.example.com");
    executor.finished();
    assert_eq!(executor.start_next(&driver).unwrap().fqdn.to_text(), "b.example.com");
}

#[test]
fn a_stopped_run_drops_what_waits_and_lets_the_rest_finish() {
    let mut driver = driver();
    let mut executor = Executor::new(1);
    executor.enqueue(tasks(&driver, &["a.example.com", "b.example.com"]));
    assert!(executor.start_next(&driver).is_some());
    driver.persisted(false);
    assert!(!executor.wants_input(&driver));
    assert!(executor.start_next(&driver).is_none());
    assert!(executor.waiting.is_empty());
    assert_eq!(executor.window.in_flight, 1);
    assert!(!executor.is_idle());
    executor.finished();
    assert!(executor.is_idle());
    assert!(!executor.wants_input(&driver));
}

#[test]
fn a_window_has_room_for_one_probe_at_least() {
    let driver = driver();
    let mut executor = Executor::new(0);
    assert_eq!(executor.window.limit, 1);
    executor.enqueue(tasks(&driver, &["a.example.com"]));
    assert!(executor.start_next(&driver).is_some());
    executor.finished();
    executor.finished();
    assert_eq!(executor.window.in_flight, 0);
}
