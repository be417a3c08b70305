use snmp_harvest::collector::collector_backoff;
use snmp_harvest::collector::cycle_wait;
use snmp_harvest::collector::startup_jitter;
use snmp_harvest::output::CarbonMetricValue;
use snmp_harvest::output::SenderQueue;

fn metric(tag: &str) -> CarbonMetricValue {
    CarbonMetricValue {
        timestamp: 1700000000,
        metric: format!("net.sw1.{}", tag),
        value: "1".to_string(),
    }
}

#[test]
fn sender_delivers_in_fifo_order() {
    let mut q = SenderQueue::new();
    q.accept(metric("a"));
    q.accept(metric("b"));
    q.accept(metric("c"));
    assert_eq!(q.queue_len(), 3);

    let first = q.take().unwrap();
    assert_eq!(first.metric, "net.sw1.a");
    q.wrote(&first);

    let second = q.take().unwrap();
    assert_eq!(second.metric, "net.sw1.b");
    q.wrote(&second);

    let third = q.take().unwrap();
    assert_eq!(third.metric, "net.sw1.c");
    q.wrote(&third);

    assert_eq!(q.queue_len(), 0);
    assert!(q.take().is_none());
}

#[test]
fn failed_write_requeues_the_metric_instead_of_dropping_it() {
    let mut q = SenderQueue::new();
    q.accept(metric("a"));
    q.accept(metric("b"));

    // the connection breaks while "a" is in flight
    let in_flight = q.take().unwrap();
    assert_eq!(in_flight.metric, "net.sw1.a");
    q.requeue(in_flight);

    // nothing was lost: both metrics still drain, order shifted by at
    // most the one reinjection
    assert_eq!(q.queue_len(), 2);
    let first = q.take().unwrap();
    assert_eq!(first.metric, "net.sw1.b");
    q.wrote(&first);
    let second = q.take().unwrap();
    assert_eq!(second.metric, "net.sw1.a");
    q.wrote(&second);
    assert_eq!(q.queue_len(), 0);
}

#[test]
fn backlog_grows_while_the_sink_is_down() {
    let mut q = SenderQueue::new();
    let mut expected: usize = 0;
    for round in 0..5 {
        q.accept(metric(format!("m{}", round).as_str()));
        expected += 1;
        assert_eq!(q.queue_len(), expected);
        // each failed attempt takes one metric out and puts it back
        let in_flight = q.take().unwrap();
        q.requeue(in_flight);
        assert_eq!(q.queue_len(), expected);
    }
}

#[test]
fn cycle_wait_fills_the_interval() {
    assert_eq!(cycle_wait(60_000, 10_000), 50_000);
}

#[test]
fn cycle_wait_is_zero_when_the_cycle_overran() {
    assert_eq!(cycle_wait(60_000, 90_000), 0);
    assert_eq!(cycle_wait(60_000, 60_000), 0);
}

#[test]
fn startup_jitter_stays_inside_the_interval() {
    for _ in 0..200 {
        let jitter = startup_jitter(60);
        assert!(jitter < 60);
    }
    assert_eq!(startup_jitter(1), 0);
}

#[test]
fn collector_backoff_is_a_third_of_the_interval() {
    assert_eq!(collector_backoff(60_000), 20_000);
    assert_eq!(collector_backoff(10), 3);
}
