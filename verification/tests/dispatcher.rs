use iva_prime_lib::dispatch::Dispatcher;

fn batch(paths: &[&str]) -> Vec<String> {
    paths.iter().map(|p| p.to_string()).collect()
}

#[test]
fn files_queue_until_ready_then_flush_in_order() {
    let mut d = Dispatcher::new();
    assert_eq!(d.submit(batch(&["x.txt"])), None);
    assert_eq!(d.submit(batch(&["y.txt", "z.txt"])), None);
    let flushed = d.on_ready();
    assert_eq!(flushed, batch(&["x.txt", "y.txt", "z.txt"]));
}

#[test]
fn files_after_ready_are_delivered_directly() {
    let mut d = Dispatcher::new();
    assert_eq!(d.on_ready(), Vec::<String>::new());
    assert_eq!(d.submit(batch(&["x.txt"])), Some(batch(&["x.txt"])));
    assert_eq!(d.submit(batch(&["y.txt", "z.txt"])), Some(batch(&["y.txt", "z.txt"])));
    // nothing was queued along the way
    assert_eq!(d.on_ready(), Vec::<String>::new());
}

#[test]
fn empty_submission_is_a_no_op() {
    let mut d = Dispatcher::new();
    assert_eq!(d.submit(Vec::new()), None);
    assert_eq!(d.submit(batch(&["x.txt"])), None);
    assert_eq!(d.submit(Vec::new()), None);
    assert_eq!(d.on_ready(), batch(&["x.txt"]));
    assert_eq!(d.submit(Vec::new()), None);
}

#[test]
fn repeated_ready_signal_is_harmless() {
    let mut d = Dispatcher::new();
    assert_eq!(d.submit(batch(&["x.txt"])), None);
    assert_eq!(d.on_ready(), batch(&["x.txt"]));
    assert_eq!(d.on_ready(), Vec::<String>::new());
    assert_eq!(d.on_ready(), Vec::<String>::new());
}

/// Run one serialized interleaving of two single-file submissions and one
/// ready signal, and return every path delivered, in delivery order.
fn deliveries(ready_position: usize) -> Vec<String> {
    let mut d = Dispatcher::new();
    let mut delivered: Vec<String> = Vec::new();
    let mut step = |d: &mut Dispatcher, delivered: &mut Vec<String>, path: &str| {
        if let Some(b) = d.submit(batch(&[path])) {
            delivered.extend(b);
        }
    };
    if ready_position == 0 {
        delivered.extend(d.on_ready());
    }
    step(&mut d, &mut delivered, "x.txt");
    if ready_position == 1 {
        delivered.extend(d.on_ready());
    }
    step(&mut d, &mut delivered, "y.txt");
    if ready_position == 2 {
        delivered.extend(d.on_ready());
    }
    delivered
}

#[test]
fn every_interleaving_delivers_each_file_exactly_once() {
    for ready_position in 0..3 {
        let mut delivered = deliveries(ready_position);
        delivered.sort();
        assert_eq!(delivered, batch(&["x.txt", "y.txt"]));
    }
}
