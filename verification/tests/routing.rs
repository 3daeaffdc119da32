use ipc_orchestrator::channel::Channel;
use ipc_orchestrator::forward::TopicSink;
use ipc_orchestrator::message::Message;
use ipc_orchestrator::orchestrator::orchestrator;
use ipc_orchestrator::connected::Pipe;
use ipc_orchestrator::routing::RouteTable;
use ipc_orchestrator::worker::{
    deliver_received, dispatch_next, dispatch_received, fan_out_message, forward_to_topic,
    next_from_queue, pass_through, route_event, sent_outcome, shovel, Selected, StepError,
};

fn msg(topic: &str, data: &[u8]) -> Message {
    Message::new(topic.to_string(), data.to_vec())
}

fn table(entries: &[(&str, u64)]) -> RouteTable {
    let mut t = RouteTable::new();
    for (topic, id) in entries {
        let tx = Channel::intact(*id).tx_take().expect("fresh channel");
        t.add(topic.to_string(), tx);
    }
    t
}

#[test]
fn message_by_value() {
    let m = msg("my_topic", &[1, 2, 3, 4]);
    let copy = m.duplicate();
    assert_eq!(copy.topic, "my_topic");
    assert_eq!(copy.data, vec![1, 2, 3, 4]);
    assert!(m.same(&copy));
    assert!(m.same(&m.clone()));
    assert!(!m.same(&msg("my_topic", &[1, 2, 3])));
    assert!(!m.same(&msg("my_topic", &[1, 2, 3, 5])));
    assert!(!m.same(&msg("other", &[1, 2, 3, 4])));
    assert!(msg("", &[]).same(&msg("", &[])));
}

#[test]
fn route_table_lists_topics() {
    let empty = RouteTable::new();
    assert!(!empty.has_topic(&"t".to_string()));
    let t = table(&[("t", 1), ("u", 2), ("t", 3)]);
    assert!(t.has_topic(&"t".to_string()));
    assert!(t.has_topic(&"u".to_string()));
    assert!(!t.has_topic(&"".to_string()));
}

#[test]
fn dispatch_fans_out_in_declaration_order() {
    let t = table(&[("t", 5), ("u", 9), ("t", 2), ("t", 7)]);
    let out = t.dispatch(msg("t", &[1, 2, 3])).expect("known topic");
    let to: Vec<u64> = out.iter().map(|d| d.to).collect();
    assert_eq!(to, vec![5, 2, 7]);
    for d in &out {
        assert!(d.message.same(&msg("t", &[1, 2, 3])));
    }
    let out = t.dispatch(msg("u", &[])).expect("known topic");
    assert_eq!(out.len(), 1);
    assert_eq!(out[0].to, 9);
    assert!(out[0].message.same(&msg("u", &[])));
}

#[test]
fn dispatch_unknown_topic() {
    let t = table(&[("y", 1)]);
    let err = t.dispatch(msg("x", &[1])).unwrap_err();
    assert_eq!(err.topic, "x");
}

#[test]
fn pass_through_keeps_the_message() {
    let tx = Channel::intact(4).tx_take().unwrap();
    let d = pass_through(&tx, msg("t", &[1, 2, 3]));
    assert_eq!(d.to, 4);
    assert_eq!(d.message.topic, "t");
    assert_eq!(d.message.data, vec![1, 2, 3]);
}

#[test]
fn echo_pipeline() {
    let mut builder = orchestrator();
    builder.start("gen").unwrap();
    builder.start("sink").unwrap();
    let mut c = builder.connect(&vec![true, true]).unwrap();
    c.pipe_bridges("gen", "sink").unwrap();
    let pipes = c.into_pipes();
    let sent = msg("t", &[1, 2, 3]);
    match &pipes[0] {
        Pipe::Direct { rx, tx } => {
            assert_eq!(rx.id(), 0);
            let d = pass_through(tx, sent.duplicate());
            assert_eq!(d.to, 1);
            assert!(d.message.same(&sent));
            assert_eq!(d.message.data, vec![1, 2, 3]);
        }
        other => panic!("unexpected {:?}", other),
    }
}

#[test]
fn topic_fan_out() {
    let mut builder = orchestrator();
    for name in ["producer", "C1", "C2"] {
        builder.start(name).unwrap();
    }
    let mut c = builder.connect(&vec![true, true, true]).unwrap();
    c.route_topic_to_bridge("t", "C1").unwrap();
    c.route_topic_to_bridge("t", "C2").unwrap();
    c.pipe_routes().unwrap();
    let pipes = c.into_pipes();
    let routes = match &pipes[0] {
        Pipe::Router { receivers, routes } => {
            let ids: Vec<u64> = receivers.iter().map(|r| r.id()).collect();
            assert_eq!(ids, vec![0, 1, 2]);
            routes
        }
        other => panic!("unexpected {:?}", other),
    };
    let mut got1: Vec<Vec<u8>> = Vec::new();
    let mut got2: Vec<Vec<u8>> = Vec::new();
    for i in 1..=10u8 {
        let event = Selected::Received { from: 0, message: msg("t", &[i]) };
        let out = route_event(routes, event).expect("known topic");
        assert_eq!(out.len(), 2);
        for d in out {
            assert_eq!(d.message.topic, "t");
            match d.to {
                1 => got1.push(d.message.data),
                2 => got2.push(d.message.data),
                other => panic!("unexpected channel {}", other),
            }
        }
    }
    let expected: Vec<Vec<u8>> = (1..=10u8).map(|i| vec![i]).collect();
    assert_eq!(got1, expected);
    assert_eq!(got2, expected);
}

#[test]
fn unknown_topic_is_fatal() {
    let t = table(&[("y", 1)]);
    let event = Selected::Received { from: 0, message: msg("x", &[1]) };
    match route_event(&t, event) {
        Err(StepError::UnknownTopic { topic }) => assert_eq!(topic, "x"),
        other => panic!("unexpected {:?}", other),
    }
    match fan_out_message(&t, msg("x", &[])) {
        Err(StepError::UnknownTopic { topic }) => assert_eq!(topic, "x"),
        other => panic!("unexpected {:?}", other),
    }
}

#[test]
fn closed_channel_is_passed_over() {
    let t = table(&[("y", 1)]);
    let out = route_event(&t, Selected::Closed { from: 3 }).expect("router goes on");
    assert!(out.is_empty());
}

#[test]
fn sent_outcome_keeps_the_refused_message() {
    assert!(sent_outcome(Ok(())).is_ok());
    match sent_outcome(Err(msg("t", &[9]))) {
        Err(StepError::SinkClosed { undelivered }) => assert!(undelivered.same(&msg("t", &[9]))),
        other => panic!("unexpected {:?}", other),
    }
}

#[test]
fn forward_to_topic_uses_the_queue_of_the_topic() {
    let (tx_a, rx_a) = crossbeam::channel::unbounded::<Message>();
    let (tx_b, rx_b) = crossbeam::channel::unbounded::<Message>();
    let out = vec![
        TopicSink { topic: "a".to_string(), sender: tx_a },
        TopicSink { topic: "b".to_string(), sender: tx_b },
    ];
    forward_to_topic(&out, msg("b", &[1])).expect("sent");
    forward_to_topic(&out, msg("a", &[2])).expect("sent");
    forward_to_topic(&out, msg("b", &[3])).expect("sent");
    assert!(rx_a.try_recv().unwrap().same(&msg("a", &[2])));
    assert!(rx_a.try_recv().is_err());
    assert!(rx_b.try_recv().unwrap().same(&msg("b", &[1])));
    assert!(rx_b.try_recv().unwrap().same(&msg("b", &[3])));
    match forward_to_topic(&out, msg("c", &[4])) {
        Err(StepError::UnknownTopic { topic }) => assert_eq!(topic, "c"),
        other => panic!("unexpected {:?}", other),
    }
    drop(rx_a);
    match forward_to_topic(&out, msg("a", &[5])) {
        Err(StepError::SinkClosed { undelivered }) => assert!(undelivered.same(&msg("a", &[5]))),
        other => panic!("unexpected {:?}", other),
    }
}

#[test]
fn shovel_reports_a_closed_queue() {
    let (tx, rx) = crossbeam::channel::unbounded::<Message>();
    shovel(&tx, msg("t", &[1])).expect("sent");
    assert!(rx.try_recv().unwrap().same(&msg("t", &[1])));
    drop(rx);
    match shovel(&tx, msg("t", &[2])) {
        Err(StepError::SinkClosed { undelivered }) => assert!(undelivered.same(&msg("t", &[2]))),
        other => panic!("unexpected {:?}", other),
    }
}

#[test]
fn next_from_queue_delivers_in_order() {
    let (qtx, qrx) = crossbeam::channel::unbounded::<Message>();
    let tx = Channel::intact(6).tx_take().unwrap();
    qtx.send(msg("t", &[1])).unwrap();
    qtx.send(msg("u", &[2])).unwrap();
    drop(qtx);
    let d = next_from_queue(&qrx, &tx).expect("first");
    assert_eq!(d.to, 6);
    assert!(d.message.same(&msg("t", &[1])));
    let d = next_from_queue(&qrx, &tx).expect("second");
    assert!(d.message.same(&msg("u", &[2])));
    assert!(matches!(next_from_queue(&qrx, &tx), Err(StepError::SourceClosed)));
    assert!(matches!(deliver_received(&tx, None), Err(StepError::SourceClosed)));
    let d = deliver_received(&tx, Some(msg("v", &[3]))).expect("delivery");
    assert_eq!(d.to, 6);
    assert!(d.message.same(&msg("v", &[3])));
}

#[test]
fn dispatcher_fans_out_what_the_queue_holds() {
    let t = table(&[("t", 1), ("t", 2)]);
    let (qtx, qrx) = crossbeam::channel::unbounded::<Message>();
    qtx.send(msg("t", &[1])).unwrap();
    qtx.send(msg("x", &[2])).unwrap();
    drop(qtx);
    let out = dispatch_next(&qrx, &t).expect("known topic");
    let to: Vec<u64> = out.iter().map(|d| d.to).collect();
    assert_eq!(to, vec![1, 2]);
    assert!(out.iter().all(|d| d.message.same(&msg("t", &[1]))));
    match dispatch_next(&qrx, &t) {
        Err(StepError::UnknownTopic { topic }) => assert_eq!(topic, "x"),
        other => panic!("unexpected {:?}", other),
    }
    assert!(matches!(dispatch_next(&qrx, &t), Err(StepError::SourceClosed)));
    assert!(matches!(dispatch_received(&t, None), Err(StepError::SourceClosed)));
    assert_eq!(dispatch_received(&t, Some(msg("t", &[]))).unwrap().len(), 2);
}

#[test]
fn buffered_router_absorbs_a_stalled_consumer() {
    let mut builder = orchestrator();
    for name in ["producer", "C1", "C2"] {
        builder.start(name).unwrap();
    }
    let mut c = builder.connect(&vec![true, true, true]).unwrap();
    c.route_topic_to_bridge("t", "C1").unwrap();
    c.route_topic_to_bridge("t", "C2").unwrap();
    c.pipe_routes_via_crossbeam().unwrap();
    let mut pipes = c.into_pipes();
    assert_eq!(pipes.len(), 4);
    let (queue, routes) = match pipes.pop().unwrap() {
        Pipe::Dispatcher { queue, routes } => (queue, routes),
        other => panic!("unexpected {:?}", other),
    };
    let sink = match &pipes[0] {
        Pipe::Shovel { rx, sink } => {
            assert_eq!(rx.id(), 0);
            sink
        }
        other => panic!("unexpected {:?}", other),
    };
    for i in 0..1000u32 {
        shovel(sink, msg("t", &i.to_le_bytes())).expect("the queue takes it at once");
    }
    for i in 0..1000u32 {
        let out = dispatch_next(&queue, &routes).expect("known topic");
        let to: Vec<u64> = out.iter().map(|d| d.to).collect();
        assert_eq!(to, vec![1, 2]);
        assert_eq!(out[0].message.data, i.to_le_bytes().to_vec());
        assert_eq!(out[1].message.data, i.to_le_bytes().to_vec());
    }
    drop(pipes);
    assert!(matches!(dispatch_next(&queue, &routes), Err(StepError::SourceClosed)));
}

#[test]
fn sum_pipeline() {
    let mut builder = orchestrator();
    for name in ["generate", "sum", "write"] {
        builder.start(name).unwrap();
    }
    let mut c = builder.connect(&vec![true, true, true]).unwrap();
    c.pipe_bridges("generate", "sum").unwrap();
    c.pipe_bridges("sum", "write").unwrap();
    let pipes = c.into_pipes();
    let (to_sum, to_write) = match (&pipes[0], &pipes[1]) {
        (Pipe::Direct { tx: a, .. }, Pipe::Direct { tx: b, .. }) => (a, b),
        other => panic!("unexpected {:?}", other),
    };
    let mut seed: u64 = 42;
    let mut expected = 0.0f64;
    let mut sum = 0.0f64;
    let mut written = 0.0f64;
    for _ in 0..1_000_000 {
        seed = seed.wrapping_mul(6364136223846793005).wrapping_add(1442695040888963407);
        let num = (seed >> 11) as f64 / (1u64 << 53) as f64;
        expected += num;
        let d = pass_through(to_sum, Message::new("generate".to_string(), num.to_le_bytes().to_vec()));
        assert_eq!(d.to, 1);
        let mut bytes = [0u8; 8];
        bytes.copy_from_slice(&d.message.data);
        sum += f64::from_le_bytes(bytes);
        let d = pass_through(to_write, Message::new("sum".to_string(), sum.to_le_bytes().to_vec()));
        assert_eq!(d.to, 2);
        bytes.copy_from_slice(&d.message.data);
        written = f64::from_le_bytes(bytes);
    }
    assert_eq!(written, expected);
}
