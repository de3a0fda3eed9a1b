use moesif_wasm::config::{Config, EnvConfig};
use moesif_wasm::root_context::EventRootContext;

fn test_config(batch_max_size: usize, batch_max_wait: usize) -> Config {
    let env = EnvConfig::from_options(
        Some("abc".to_string()),
        None,
        None,
        Some(batch_max_size),
        Some(batch_max_wait),
        None,
        None,
        None,
        None,
    )
    .unwrap();
    Config { env, event_queue_id: 7 }
}

#[test]
fn three_events_two_dispatches_in_fifo_order() {
    // batch_max_size 2, batch_max_wait 1000: a queue-ready signal after two
    // events flushes exactly one full batch; the timer tick flushes the rest.
    let mut root = EventRootContext::new(test_config(2, 1000));
    let first_tick = root.on_vm_start();
    assert_eq!(first_tick, 1);
    assert_eq!(root.on_tick(), Some(1000));
    root.add_event(b"E1".to_vec());
    root.add_event(b"E2".to_vec());
    let bodies = root.on_queue_ready();
    assert_eq!(bodies, vec![b"[E1,E2]".to_vec()]);
    root.add_event(b"E3".to_vec());
    assert_eq!(root.on_tick(), None);
    let bodies = root.drain_and_send(1);
    assert_eq!(bodies, vec![b"[E3]".to_vec()]);
    let bodies = root.drain_and_send(1);
    assert!(bodies.is_empty());
}

#[test]
fn drain_with_threshold_one_covers_all_events_in_ceil_batches() {
    let mut root = EventRootContext::new(test_config(2, 2000));
    for e in [b"a", b"b", b"c", b"d", b"e"] {
        root.add_event(e.to_vec());
    }
    let bodies = root.drain_and_send(1);
    assert_eq!(
        bodies,
        vec![b"[a,b]".to_vec(), b"[c,d]".to_vec(), b"[e]".to_vec()]
    );
    assert!(root.event_byte_buffer.is_empty());
}

#[test]
fn queue_ready_leaves_partial_batch_buffered() {
    let mut root = EventRootContext::new(test_config(3, 2000));
    root.add_event(b"a".to_vec());
    root.add_event(b"b".to_vec());
    let bodies = root.on_queue_ready();
    assert!(bodies.is_empty());
    assert_eq!(root.event_byte_buffer.len(), 2);
}

#[test]
fn events_json_is_plain_concatenation() {
    let root = EventRootContext::new(test_config(10, 2000));
    let body = root.write_events_json(vec![b"{\"a\":1}".to_vec(), b"{\"b\":2}".to_vec()]);
    assert_eq!(body, b"[{\"a\":1},{\"b\":2}]".to_vec());
    let single = root.write_events_json(vec![b"x".to_vec()]);
    assert_eq!(single, b"[x]".to_vec());
}

#[test]
fn dispatch_headers_carry_identity_and_length() {
    let root = EventRootContext::new(test_config(10, 2000));
    let headers = root.build_dispatch_headers("POST", "/v1/events/batch", 17);
    let expected: Vec<(String, String)> = vec![
        (":method".to_string(), "POST".to_string()),
        (":path".to_string(), "/v1/events/batch".to_string()),
        (":authority".to_string(), "api.moesif.net".to_string()),
        ("accept".to_string(), "*/*".to_string()),
        ("content-type".to_string(), "application/json".to_string()),
        ("content-length".to_string(), "17".to_string()),
        ("x-moesif-application-id".to_string(), "abc".to_string()),
    ];
    assert_eq!(headers, expected);
}

#[test]
fn content_length_of_an_empty_body_is_zero() {
    let root = EventRootContext::new(test_config(10, 2000));
    let headers = root.build_dispatch_headers("GET", "/v1/config", 0);
    assert_eq!(headers[5], ("content-length".to_string(), "0".to_string()));
}

#[test]
fn steady_tick_changes_nothing() {
    let mut root = EventRootContext::new(test_config(2, 500));
    assert_eq!(root.on_vm_start(), 1);
    assert_eq!(root.on_tick(), Some(500));
    assert_eq!(root.on_tick(), None);
    assert_eq!(root.on_tick(), None);
}
