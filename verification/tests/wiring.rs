use ipc_orchestrator::channel::Channel;
use ipc_orchestrator::connected::{Bridge, ConnectedOrchestrator, Pipe};
use ipc_orchestrator::error::ConfigError;
use ipc_orchestrator::forward::TopicSink;
use ipc_orchestrator::message::Message;
use ipc_orchestrator::orchestrator::{orchestrator, Orchestrator, IPC_SERVER_ENV_VAR};

fn connected(names: &[&str]) -> ConnectedOrchestrator {
    let mut builder = orchestrator();
    for name in names {
        assert!(matches!(builder.start(name), Ok(true)));
    }
    let delivered = vec![true; names.len()];
    builder.connect(&delivered).expect("every child delivered")
}

#[test]
fn env_var_name() {
    assert_eq!(IPC_SERVER_ENV_VAR, "IPC_SERVER");
}

#[test]
fn channel_halves_are_taken_once() {
    let mut c = Channel::intact(7);
    assert_eq!(c.id(), 7);
    assert!(c.rx_available() && c.tx_available());
    let rx = c.rx_take().expect("receiver is there");
    assert_eq!(rx.id(), 7);
    assert!(!c.rx_available() && c.tx_available());
    assert!(c.rx_take().is_none());
    let tx = c.tx_take().expect("sender is there");
    assert_eq!(tx.id(), 7);
    assert!(c.tx_take().is_none());
    assert!(!c.tx_available());
}

#[test]
fn channel_split() {
    let (tx, rx) = Channel::intact(3).split().expect("intact");
    assert_eq!((tx.id(), rx.id()), (3, 3));
    let mut c = Channel::intact(4);
    let _ = c.tx_take();
    assert!(c.split().is_none());
}

#[test]
fn duplicate_start_is_rejected() {
    let mut builder = orchestrator();
    assert!(matches!(builder.start("gen"), Ok(true)));
    match builder.start("gen") {
        Err(ConfigError::DuplicateBridge { name }) => assert_eq!(name, "gen"),
        other => panic!("unexpected {:?}", other),
    }
    assert!(matches!(builder.start("sink"), Ok(true)));
    let c = builder.connect(&vec![true, true]).expect("connects");
    assert_eq!(c.bridge_count(), 2);
}

#[test]
fn start_without_ipc_needs_no_rendezvous() {
    let mut builder = orchestrator().ipc(false);
    assert!(matches!(builder.start("echo"), Ok(false)));
    let c = builder.connect(&Vec::new()).expect("nothing to wait for");
    assert_eq!(c.bridge_count(), 0);
    assert!(c.bridge("echo").is_none());
}

#[test]
fn builder_new_sets_ipc() {
    let mut on = Orchestrator::new(true);
    assert!(matches!(on.start("a"), Ok(true)));
    let mut off = Orchestrator::new(false);
    assert!(matches!(off.start("a"), Ok(false)));
}

#[test]
fn connect_numbers_channels_by_start_order() {
    let c = connected(&["a", "b", "c"]);
    assert_eq!(c.bridge_count(), 3);
    assert_eq!(c.bridge("a").unwrap().channel.id(), 0);
    assert_eq!(c.bridge("b").unwrap().channel.id(), 1);
    assert_eq!(c.bridge("c").unwrap().channel.id(), 2);
    assert_eq!(c.bridge("b").unwrap().name, "b");
    assert!(c.bridge("c").unwrap().channel.rx_available());
    assert!(c.bridge("c").unwrap().channel.tx_available());
    assert!(!c.is_sealed());
    assert!(!c.has_pipes());
}

#[test]
fn connect_fails_on_missing_handshake() {
    let mut builder = orchestrator();
    builder.start("a").unwrap();
    builder.start("b").unwrap();
    builder.start("c").unwrap();
    let err = builder.connect(&vec![true, false, false]).unwrap_err();
    assert_eq!(err.name, "b");
}

#[test]
fn connect_fails_on_short_handshake_list() {
    let mut builder = orchestrator();
    builder.start("a").unwrap();
    builder.start("b").unwrap();
    let err = builder.connect(&vec![true]).unwrap_err();
    assert_eq!(err.name, "b");
}

#[test]
fn new_rejects_duplicate_bridge_names() {
    let bridges = vec![
        Bridge { channel: Channel::intact(0), name: "a".to_string() },
        Bridge { channel: Channel::intact(1), name: "b".to_string() },
        Bridge { channel: Channel::intact(2), name: "a".to_string() },
    ];
    match ConnectedOrchestrator::new(bridges) {
        Err(ConfigError::DuplicateBridge { name }) => assert_eq!(name, "a"),
        other => panic!("unexpected {:?}", other),
    }
}

#[test]
fn pipe_bridges_plans_a_direct_pipe() {
    let mut c = connected(&["gen", "sink"]);
    c.pipe_bridges("gen", "sink").expect("wires");
    assert!(c.has_pipes());
    assert_eq!(c.pipes().len(), 1);
    match &c.pipes()[0] {
        Pipe::Direct { rx, tx } => assert_eq!((rx.id(), tx.id()), (0, 1)),
        other => panic!("unexpected {:?}", other),
    }
    assert!(!c.bridge("gen").unwrap().channel.rx_available());
    assert!(c.bridge("gen").unwrap().channel.tx_available());
    assert!(c.bridge("sink").unwrap().channel.rx_available());
    assert!(!c.bridge("sink").unwrap().channel.tx_available());
}

#[test]
fn pipe_bridges_unknown_bridge() {
    let mut c = connected(&["a"]);
    match c.pipe_bridges("nobody", "a") {
        Err(ConfigError::BridgeNotFound { name }) => assert_eq!(name, "nobody"),
        other => panic!("unexpected {:?}", other),
    }
    assert!(c.bridge("a").unwrap().channel.tx_available());
    match c.pipe_bridges("a", "nobody") {
        Err(ConfigError::BridgeNotFound { name }) => assert_eq!(name, "nobody"),
        other => panic!("unexpected {:?}", other),
    }
    assert!(!c.bridge("a").unwrap().channel.rx_available());
    assert!(!c.has_pipes());
}

#[test]
fn duplicate_wiring_is_rejected() {
    let mut c = connected(&["A", "B", "C"]);
    c.pipe_bridges("A", "B").expect("first pipe");
    match c.pipe_bridges("A", "C") {
        Err(ConfigError::ReceiverTaken { name }) => assert_eq!(name, "A"),
        other => panic!("unexpected {:?}", other),
    }
    assert_eq!(c.pipes().len(), 1);
    assert!(matches!(&c.pipes()[0], Pipe::Direct { rx, tx } if rx.id() == 0 && tx.id() == 1));
    assert!(c.bridge("C").unwrap().channel.tx_available());
}

#[test]
fn sender_is_taken_once() {
    let mut c = connected(&["A", "B", "C"]);
    c.pipe_bridges("A", "C").expect("first pipe");
    match c.pipe_bridges("B", "C") {
        Err(ConfigError::SenderTaken { name }) => assert_eq!(name, "C"),
        other => panic!("unexpected {:?}", other),
    }
    assert!(!c.bridge("B").unwrap().channel.rx_available());
    assert_eq!(c.pipes().len(), 1);
}

#[test]
fn pipe_to_itself() {
    let mut c = connected(&["loop"]);
    c.pipe_bridges("loop", "loop").expect("both halves are free");
    assert!(matches!(&c.pipes()[0], Pipe::Direct { rx, tx } if rx.id() == 0 && tx.id() == 0));
}

#[test]
fn routes_are_sealed_by_router() {
    let mut c = connected(&["p", "c1", "c2"]);
    c.route_topic_to_bridge("t", "c1").expect("routes");
    c.pipe_routes().expect("router");
    assert!(c.is_sealed());
    match c.route_topic_to_bridge("t", "c2") {
        Err(ConfigError::RoutesSealed) => {}
        other => panic!("unexpected {:?}", other),
    }
    assert!(!c.bridge("c2").unwrap().channel.tx_available());
    assert!(matches!(c.pipe_routes(), Err(ConfigError::RoutesSealed)));
    assert!(matches!(c.pipe_routes_via_crossbeam(), Err(ConfigError::RoutesSealed)));
    assert_eq!(c.pipes().len(), 1);
}

#[test]
fn routes_are_sealed_by_buffered_router() {
    let mut c = connected(&["p", "c1"]);
    c.pipe_routes_via_crossbeam().expect("router");
    assert!(c.is_sealed());
    assert!(matches!(c.route_topic_to_bridge("t", "c1"), Err(ConfigError::RoutesSealed)));
}

#[test]
fn router_takes_free_receivers_in_start_order() {
    let mut c = connected(&["a", "b", "c", "d"]);
    c.pipe_bridges("b", "a").expect("pipe");
    c.route_topic_to_bridge("t", "d").expect("route");
    c.route_topic_to_bridge("t", "c").expect("route");
    c.route_topic_to_bridge("u", "b").expect("route");
    c.pipe_routes().expect("router");
    assert_eq!(c.pipes().len(), 2);
    match &c.pipes()[1] {
        Pipe::Router { receivers, routes } => {
            let ids: Vec<u64> = receivers.iter().map(|r| r.id()).collect();
            assert_eq!(ids, vec![0, 2, 3]);
            assert!(routes.has_topic(&"t".to_string()));
            assert!(routes.has_topic(&"u".to_string()));
            assert!(!routes.has_topic(&"v".to_string()));
        }
        other => panic!("unexpected {:?}", other),
    }
    for name in ["a", "b", "c", "d"] {
        assert!(!c.bridge(name).unwrap().channel.rx_available());
    }
}

#[test]
fn buffered_router_plans_shovels_and_dispatcher() {
    let mut c = connected(&["a", "b", "c"]);
    c.pipe_bridges("a", "b").expect("pipe");
    c.route_topic_to_bridge("t", "c").expect("route");
    c.pipe_routes_via_crossbeam().expect("router");
    let pipes = c.into_pipes();
    assert_eq!(pipes.len(), 4);
    assert!(matches!(&pipes[0], Pipe::Direct { .. }));
    assert!(matches!(&pipes[1], Pipe::Shovel { rx, .. } if rx.id() == 1));
    assert!(matches!(&pipes[2], Pipe::Shovel { rx, .. } if rx.id() == 2));
    match &pipes[3] {
        Pipe::Dispatcher { routes, .. } => {
            assert!(routes.has_topic(&"t".to_string()));
        }
        other => panic!("unexpected {:?}", other),
    }
}

#[test]
fn forward_rx_rejects_empty_map() {
    let mut c = connected(&["a"]);
    assert!(matches!(c.forward_bridge_rx("a", Vec::new()), Err(ConfigError::EmptyTopicMap)));
    assert!(c.bridge("a").unwrap().channel.rx_available());
    assert!(!c.has_pipes());
}

#[test]
fn forward_rx_and_tx_plan_tasks() {
    let mut c = connected(&["a", "b"]);
    let (qtx, qrx) = crossbeam::channel::unbounded::<Message>();
    let out = vec![TopicSink { topic: "t".to_string(), sender: qtx }];
    c.forward_bridge_rx("a", out).expect("forward rx");
    c.forward_bridge_tx("b", qrx).expect("forward tx");
    assert_eq!(c.pipes().len(), 2);
    match &c.pipes()[0] {
        Pipe::ForwardRx { rx, out } => {
            assert_eq!(rx.id(), 0);
            assert_eq!(out.len(), 1);
            assert_eq!(out[0].topic, "t");
        }
        other => panic!("unexpected {:?}", other),
    }
    assert!(matches!(&c.pipes()[1], Pipe::ForwardTx { tx, .. } if tx.id() == 1));
    let (_qtx2, qrx2) = crossbeam::channel::unbounded::<Message>();
    match c.forward_bridge_tx("b", qrx2) {
        Err(ConfigError::SenderTaken { name }) => assert_eq!(name, "b"),
        other => panic!("unexpected {:?}", other),
    }
    let (qtx3, _qrx3) = crossbeam::channel::unbounded::<Message>();
    let out = vec![TopicSink { topic: "t".to_string(), sender: qtx3 }];
    match c.forward_bridge_rx("a", out) {
        Err(ConfigError::ReceiverTaken { name }) => assert_eq!(name, "a"),
        other => panic!("unexpected {:?}", other),
    }
}

#[test]
fn no_half_has_two_owners() {
    let mut c = connected(&["a", "b", "c", "d", "e"]);
    c.pipe_bridges("a", "b").unwrap();
    assert!(c.pipe_bridges("a", "c").is_err());
    assert!(c.pipe_bridges("c", "b").is_err());
    c.route_topic_to_bridge("t", "c").unwrap();
    assert!(c.route_topic_to_bridge("u", "c").is_err());
    let (_qtx, qrx) = crossbeam::channel::unbounded::<Message>();
    c.forward_bridge_tx("d", qrx).unwrap();
    c.pipe_routes_via_crossbeam().unwrap();
    let mut senders: Vec<u64> = Vec::new();
    let mut receivers: Vec<u64> = Vec::new();
    for pipe in c.pipes() {
        match pipe {
            Pipe::Direct { rx, tx } => {
                receivers.push(rx.id());
                senders.push(tx.id());
            }
            Pipe::ForwardRx { rx, .. } => receivers.push(rx.id()),
            Pipe::ForwardTx { tx, .. } => senders.push(tx.id()),
            Pipe::Router { receivers: all, .. } => receivers.extend(all.iter().map(|r| r.id())),
            Pipe::Shovel { rx, .. } => receivers.push(rx.id()),
            Pipe::Dispatcher { routes, .. } => {
                let out = routes
                    .dispatch(Message::new("t".to_string(), Vec::new()))
                    .expect("known topic");
                senders.extend(out.iter().map(|d| d.to));
            }
        }
    }
    assert_eq!(receivers, vec![0, 1, 3, 4]);
    assert_eq!(senders, vec![1, 3, 2]);
}
