use game_server::broadcast::Outbox;
use game_server::registry::Registry;
use tokio::sync::mpsc::unbounded_channel;
use tokio_tungstenite::tungstenite::Message;

#[test]
fn broadcast_reaches_every_open_connection() {
    let mut r = Registry::new();
    let (tx1, mut rx1) = unbounded_channel();
    let (tx2, mut rx2) = unbounded_channel();
    r.register(1, Outbox::new(tx1));
    r.register(2, Outbox::new(tx2));
    let failed = r.broadcast_frame(&"frame-a".to_string());
    assert!(failed.is_empty());
    assert_eq!(rx1.try_recv().unwrap(), Message::Text("frame-a".to_string()));
    assert_eq!(rx2.try_recv().unwrap(), Message::Text("frame-a".to_string()));
    assert!(rx1.try_recv().is_err());
}

#[test]
fn broadcast_skips_closed_connection_and_keeps_order() {
    let mut r = Registry::new();
    let (tx1, rx1) = unbounded_channel();
    let (tx2, mut rx2) = unbounded_channel();
    let (tx3, mut rx3) = unbounded_channel();
    r.register(1, Outbox::new(tx1));
    r.register(2, Outbox::new(tx2));
    r.register(3, Outbox::new(tx3));
    drop(rx1);
    let failed = r.broadcast_frame(&"one".to_string());
    assert_eq!(failed, vec![1]);
    let failed = r.broadcast_frame(&"two".to_string());
    assert_eq!(failed, vec![1]);
    assert_eq!(rx2.try_recv().unwrap(), Message::Text("one".to_string()));
    assert_eq!(rx2.try_recv().unwrap(), Message::Text("two".to_string()));
    assert_eq!(rx3.try_recv().unwrap(), Message::Text("one".to_string()));
    assert_eq!(rx3.try_recv().unwrap(), Message::Text("two".to_string()));
}

#[test]
fn broadcast_to_empty_registry_does_nothing() {
    let mut r: Registry<Outbox> = Registry::new();
    let failed = r.broadcast_frame(&"x".to_string());
    assert!(failed.is_empty());
}

#[test]
fn deregistered_connection_gets_no_frame() {
    let mut r = Registry::new();
    let (tx1, mut rx1) = unbounded_channel();
    let (tx2, mut rx2) = unbounded_channel();
    r.register(1, Outbox::new(tx1));
    r.register(2, Outbox::new(tx2));
    r.deregister(1);
    let failed = r.broadcast_frame(&"after".to_string());
    assert!(failed.is_empty());
    assert!(rx1.try_recv().is_err());
    assert_eq!(rx2.try_recv().unwrap(), Message::Text("after".to_string()));
}
