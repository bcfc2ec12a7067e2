use greego::event_queue::{EventPriority, EventQueue, QueuedEvent};

fn moved(node: &str, x: f64, y: f64) -> QueuedEvent<(String, f64, f64)> {
    QueuedEvent { payload: (node.to_string(), x, y), move_target: Some(node.to_string()) }
}

fn immediate(name: &str) -> QueuedEvent<(String, f64, f64)> {
    QueuedEvent { payload: (name.to_string(), 0.0, 0.0), move_target: None }
}

#[test]
fn test_event_loop_move_node_coalescing() {
    let mut el: EventQueue<(String, f64, f64)> = EventQueue::new(50, 1000);
    assert!(el.handle_incoming(moved("node:1", 10.0, 10.0)).is_empty());
    assert!(el.handle_incoming(moved("node:1", 20.0, 20.0)).is_empty());
    assert!(el.handle_incoming(moved("node:1", 30.0, 30.0)).is_empty());

    assert_eq!(el.len(), 3);
    el.optimize();
    assert_eq!(el.len(), 1);

    let run = el.tick();
    match run.first() {
        Some((_, x, y)) => {
            assert_eq!(*x, 30.0);
            assert_eq!(*y, 30.0);
        }
        None => panic!("Expected MoveNode event"),
    }
}

#[test]
fn priorities_follow_the_move_target() {
    assert_eq!(moved("n", 0.0, 0.0).priority(), EventPriority::Coalescable);
    assert_eq!(immediate("add").priority(), EventPriority::Immediate);
}

#[test]
fn immediate_event_runs_queue_in_order() {
    let mut q = EventQueue::new(50, 1000);
    assert!(q.handle_incoming(moved("a", 1.0, 1.0)).is_empty());
    assert!(q.handle_incoming(moved("b", 2.0, 2.0)).is_empty());
    assert!(q.handle_incoming(moved("a", 3.0, 3.0)).is_empty());
    let run = q.handle_incoming(immediate("add"));
    let names: Vec<(String, f64)> = run.iter().map(|(n, x, _)| (n.clone(), *x)).collect();
    assert_eq!(
        names,
        vec![("b".to_string(), 2.0), ("a".to_string(), 3.0), ("add".to_string(), 0.0)]
    );
    assert_eq!(q.len(), 0);
}

#[test]
fn batch_size_limits_one_batch() {
    let mut q = EventQueue::new(2, 1000);
    for i in 0..4 {
        q.handle_incoming(moved(&format!("n{}", i), i as f64, 0.0));
    }
    let run = q.tick();
    assert_eq!(run.len(), 2);
    assert_eq!(run[0].0, "n0");
    assert_eq!(run[1].0, "n1");
    assert_eq!(q.len(), 2);
    assert!(EventQueue::<u8>::new(2, 10).tick().is_empty());
}

#[test]
fn full_queue_is_drained_before_taking_an_event() {
    let mut q = EventQueue::new(1, 2);
    assert!(q.handle_incoming(moved("a", 1.0, 0.0)).is_empty());
    assert!(q.handle_incoming(moved("b", 2.0, 0.0)).is_empty());
    let run = q.handle_incoming(moved("c", 3.0, 0.0));
    assert_eq!(run.len(), 1);
    assert_eq!(run[0].0, "a");
    assert_eq!(q.len(), 2);
}
