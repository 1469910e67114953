use tunnel_hub::registry::Registry;

#[test]
fn register_ids_are_unique_and_increasing() {
    let mut reg = Registry::new();
    let a = reg.register(None);
    let b = reg.register(Some("10.0.0.2:4000".to_string()));
    let c = reg.register(None);
    assert_eq!((a, b, c), (1, 2, 3));
    reg.remove(b);
    let d = reg.register(None);
    assert_eq!(d, 4);
    assert_eq!(reg.list(), vec![1, 3, 4]);
}

#[test]
fn remove_is_idempotent() {
    let mut reg = Registry::new();
    let a = reg.register(None);
    reg.remove(a);
    reg.remove(a);
    reg.remove(42);
    assert!(!reg.contains(a));
    assert!(reg.list().is_empty());
}

#[test]
fn broadcast_skips_sender_and_survives_removal() {
    let mut reg = Registry::new();
    let a = reg.register(None);
    let b = reg.register(None);
    let c = reg.register(None);
    reg.broadcast(a, "hi");
    assert_eq!(reg.take_outbox(b), vec!["hi".to_string()]);
    assert_eq!(reg.take_outbox(c), vec!["hi".to_string()]);
    assert!(reg.take_outbox(a).is_empty());
    reg.remove(c);
    reg.broadcast(a, "again");
    assert_eq!(reg.take_outbox(b), vec!["again".to_string()]);
    assert!(reg.take_outbox(c).is_empty());
    assert!(reg.take_outbox(a).is_empty());
}

#[test]
fn send_to_missing_connection_fails() {
    let mut reg = Registry::new();
    let a = reg.register(None);
    assert!(reg.send(a + 1, "x").is_err());
    assert!(reg.send(a, "x").is_ok());
}

#[test]
fn outbox_keeps_fifo_order() {
    let mut reg = Registry::new();
    let a = reg.register(None);
    reg.send(a, "one").ok();
    reg.send(a, "two").ok();
    reg.send(a, "three").ok();
    assert_eq!(
        reg.take_outbox(a),
        vec!["one".to_string(), "two".to_string(), "three".to_string()]
    );
    assert!(reg.take_outbox(a).is_empty());
}

#[test]
fn clients_lists_addresses() {
    let mut reg = Registry::new();
    reg.register(Some("127.0.0.1:5000".to_string()));
    reg.register(None);
    let clients = reg.clients();
    assert_eq!(clients.len(), 2);
    assert_eq!(clients[0], (1, Some("127.0.0.1:5000".to_string())));
    assert_eq!(clients[1], (2, None));
    assert!(reg.can_register());
}
