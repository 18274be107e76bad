use desk::metrics::{counter, metrics_reply, register_gauge, render, Registry};

#[test]
fn counters_and_gauges_render_exposition_format() {
    let mut registry = Registry::new();
    let c = counter(&mut registry, "test_events_total");
    c.inc();
    c.add(2);
    assert_eq!(counter(&mut registry, "test_events_total").get(), 3, "same instance");

    register_gauge(&mut registry, "test_depth", "42.5".to_string());
    let text = render(&registry);
    assert!(text.contains("# TYPE test_events_total counter\ntest_events_total 3\n"));
    assert!(text.contains("# TYPE test_depth gauge\ntest_depth 42.5\n"));
}

#[test]
fn names_are_rendered_in_order() {
    let mut registry = Registry::default();
    counter(&mut registry, "b").inc();
    counter(&mut registry, "a").add(7);
    register_gauge(&mut registry, "z", "1".to_string());
    register_gauge(&mut registry, "z", "2".to_string());
    assert_eq!(
        render(&registry),
        "# TYPE a counter\na 7\n# TYPE b counter\nb 1\n# TYPE z gauge\nz 2\n"
    );
}

#[test]
fn a_counter_wraps_around() {
    let mut registry = Registry::new();
    let c = counter(&mut registry, "n");
    c.add(u64::MAX);
    c.inc();
    assert_eq!(c.get(), 0);
}

#[test]
fn the_reply_carries_its_length_in_bytes() {
    let reply = metrics_reply("é 1\n");
    assert!(reply.starts_with("HTTP/1.0 200 OK\r\n"));
    assert!(reply.contains("Content-Length: 5\r\n"));
    assert!(reply.ends_with("\r\n\r\né 1\n"));
}
