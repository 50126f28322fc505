use load_balancer::manager::{Manager, ManagerCommand, ManagerReply};
use load_balancer::table::Address;

fn addr(host: &str, port: &str) -> Address {
    Address { host: host.to_string(), port: port.to_string() }
}

#[test]
fn new_manager_is_running_with_an_empty_queue() {
    let m = Manager::new();
    assert!(!m.is_shutdown());
    assert!(m.queue_is_empty());
}

#[test]
fn registration_is_accepted_once() {
    let mut m = Manager::new();
    assert_eq!(m.register(addr("h", "1"), 2), ManagerReply::Registered);
    assert_eq!(m.register(addr("h", "1"), 5), ManagerReply::AlreadyRegistered);
    assert_eq!(m.register(addr("h", "2"), 5), ManagerReply::Registered);
    assert_eq!(m.register(addr("g", "1"), 1), ManagerReply::Registered);
}

#[test]
fn registration_with_no_clients_is_refused() {
    let mut m = Manager::new();
    assert_eq!(m.register(addr("h", "1"), 0), ManagerReply::InvalidMaxClients);
    assert_eq!(m.register(addr("h", "1"), 1), ManagerReply::Registered);
    assert_eq!(m.register(addr("h", "1"), 0), ManagerReply::InvalidMaxClients);
}

#[test]
fn server_whose_ack_failed_can_register_again() {
    let mut m = Manager::new();
    assert_eq!(m.register(addr("h", "1"), 2), ManagerReply::Registered);
    m.ack_failed(&addr("h", "1"));
    assert_eq!(m.register(addr("h", "1"), 4), ManagerReply::Registered);
    assert_eq!(m.register(addr("h", "1"), 4), ManagerReply::AlreadyRegistered);
}

#[test]
fn failed_ack_for_unknown_server_changes_nothing() {
    let mut m = Manager::new();
    assert_eq!(m.register(addr("h", "1"), 2), ManagerReply::Registered);
    m.ack_failed(&addr("h", "2"));
    assert_eq!(m.register(addr("h", "1"), 2), ManagerReply::AlreadyRegistered);
}

#[test]
fn clients_wait_in_the_queue() {
    let mut m = Manager::new();
    assert_eq!(m.client_connect(addr("c", "1")), ManagerReply::Queued);
    assert!(!m.queue_is_empty());
    assert_eq!(m.client_connect(addr("c", "1")), ManagerReply::Queued);
    assert_eq!(m.client_connect(addr("d", "1")), ManagerReply::Queued);
}

#[test]
fn disconnect_of_waiting_client_is_not_connected() {
    let mut m = Manager::new();
    assert_eq!(m.client_connect(addr("c", "1")), ManagerReply::Queued);
    assert_eq!(m.client_disconnect(addr("c", "1")), ManagerReply::NotConnected);
    assert_eq!(m.client_disconnect(addr("e", "1")), ManagerReply::NotConnected);
    assert!(!m.queue_is_empty());
}

#[test]
fn shutdown_is_kept() {
    let mut m = Manager::new();
    assert_eq!(m.handle(ManagerCommand::Shutdown), ManagerReply::ShutdownRequested);
    assert!(m.is_shutdown());
    assert_eq!(
        m.handle(ManagerCommand::Register { server: addr("h", "1"), max_clients: 1 }),
        ManagerReply::Registered
    );
    assert!(m.is_shutdown());
}

#[test]
fn handle_dispatches_each_command() {
    let mut m = Manager::new();
    assert_eq!(
        m.handle(ManagerCommand::Register { server: addr("h", "1"), max_clients: 0 }),
        ManagerReply::InvalidMaxClients
    );
    assert_eq!(
        m.handle(ManagerCommand::ClientConnect { client: addr("c", "2") }),
        ManagerReply::Queued
    );
    assert_eq!(
        m.handle(ManagerCommand::ClientDisconnect { client: addr("c", "2") }),
        ManagerReply::NotConnected
    );
    assert_eq!(
        m.handle(ManagerCommand::Unrecognized { message_type: "heartbeat".to_string() }),
        ManagerReply::Ignored
    );
    assert_eq!(m.handle(ManagerCommand::MissingType), ManagerReply::Ignored);
    assert_eq!(m.handle(ManagerCommand::TypeNotText), ManagerReply::Ignored);
    assert!(!m.is_shutdown());
}

fn assign(m: &mut Manager) -> Option<(String, String)> {
    m.assign_next().map(|(c, s)| (format!("{}:{}", c.host, c.port), format!("{}:{}", s.host, s.port)))
}

#[test]
fn no_assignment_without_clients_or_servers() {
    let mut m = Manager::new();
    assert_eq!(assign(&mut m), None);
    assert_eq!(m.client_connect(addr("c", "1")), ManagerReply::Queued);
    assert_eq!(assign(&mut m), None);
    assert!(!m.queue_is_empty());
}

#[test]
fn clients_are_assigned_round_robin() {
    let mut m = Manager::new();
    m.register(addr("s", "1"), 5);
    m.register(addr("s", "2"), 5);
    m.register(addr("s", "3"), 5);
    for c in ["a", "b", "c", "d", "e"] {
        assert_eq!(m.client_connect(addr(c, "9")), ManagerReply::Queued);
    }
    assert_eq!(assign(&mut m), Some(("a:9".to_string(), "s:1".to_string())));
    assert_eq!(assign(&mut m), Some(("b:9".to_string(), "s:2".to_string())));
    assert_eq!(assign(&mut m), Some(("c:9".to_string(), "s:3".to_string())));
    assert_eq!(assign(&mut m), Some(("d:9".to_string(), "s:1".to_string())));
    assert_eq!(assign(&mut m), Some(("e:9".to_string(), "s:2".to_string())));
    assert!(m.queue_is_empty());
    assert_eq!(m.clients_of_server(&addr("s", "1")), Some(2));
    assert_eq!(m.clients_of_server(&addr("s", "3")), Some(1));
    assert_eq!(m.server_of_client(&addr("d", "9")).map(|s| s.port), Some("1".to_string()));
}

#[test]
fn full_and_dead_servers_are_skipped() {
    let mut m = Manager::new();
    m.register(addr("s", "1"), 1);
    m.register(addr("s", "2"), 3);
    m.register(addr("s", "3"), 3);
    m.ack_failed(&addr("s", "2"));
    for c in ["a", "b", "c"] {
        m.client_connect(addr(c, "9"));
    }
    assert_eq!(assign(&mut m), Some(("a:9".to_string(), "s:1".to_string())));
    assert_eq!(assign(&mut m), Some(("b:9".to_string(), "s:3".to_string())));
    assert_eq!(assign(&mut m), Some(("c:9".to_string(), "s:3".to_string())));
    assert_eq!(m.clients_of_server(&addr("s", "2")), Some(0));
    assert_eq!(m.clients_of_server(&addr("s", "1")), Some(1));
    assert_eq!(m.client_connect(addr("x", "9")), ManagerReply::Queued);
    m.register(addr("s", "3"), 3);
    m.ack_failed(&addr("s", "3"));
    m.ack_failed(&addr("s", "1"));
    assert_eq!(assign(&mut m), None);
    assert!(!m.queue_is_empty());
}

#[test]
fn disconnect_frees_a_place_at_the_server() {
    let mut m = Manager::new();
    m.register(addr("127.0.0.1", "8001"), 3);
    m.client_connect(addr("127.0.0.1", "7001"));
    m.client_connect(addr("127.0.0.1", "7002"));
    assert!(assign(&mut m).is_some());
    assert!(assign(&mut m).is_some());
    assert_eq!(m.clients_of_server(&addr("127.0.0.1", "8001")), Some(2));
    assert_eq!(m.client_disconnect(addr("127.0.0.1", "7001")), ManagerReply::Disconnected);
    assert_eq!(m.clients_of_server(&addr("127.0.0.1", "8001")), Some(1));
    assert!(m.server_of_client(&addr("127.0.0.1", "7001")).is_none());
    assert!(m.server_of_client(&addr("127.0.0.1", "7002")).is_some());
    assert_eq!(m.client_disconnect(addr("127.0.0.1", "7001")), ManagerReply::NotConnected);
    assert!(m.queue_is_empty());
}

#[test]
fn connected_client_cannot_queue_again_and_duplicates_are_dropped() {
    let mut m = Manager::new();
    m.register(addr("s", "1"), 4);
    m.client_connect(addr("c", "1"));
    m.client_connect(addr("c", "1"));
    assert!(assign(&mut m).is_some());
    assert_eq!(m.client_connect(addr("c", "1")), ManagerReply::AlreadyInUse);
    assert_eq!(assign(&mut m), None);
    assert!(m.queue_is_empty());
    assert_eq!(m.clients_of_server(&addr("s", "1")), Some(1));
}

#[test]
fn reregistration_keeps_the_connections_and_counts_afresh() {
    let mut m = Manager::new();
    m.register(addr("s", "1"), 2);
    m.client_connect(addr("c", "1"));
    assert!(assign(&mut m).is_some());
    assert!(m.can_disconnect(&addr("c", "1")));
    m.ack_failed(&addr("s", "1"));
    assert_eq!(m.register(addr("s", "1"), 2), ManagerReply::Registered);
    assert_eq!(m.clients_of_server(&addr("s", "1")), Some(0));
    assert_eq!(m.server_of_client(&addr("c", "1")).map(|s| s.port), Some("1".to_string()));
    assert!(!m.can_disconnect(&addr("c", "1")));
    assert!(m.can_disconnect(&addr("d", "1")));
    m.client_connect(addr("d", "1"));
    assert_eq!(assign(&mut m), Some(("d:1".to_string(), "s:1".to_string())));
    assert_eq!(m.clients_of_server(&addr("s", "1")), Some(1));
    assert!(m.can_disconnect(&addr("c", "1")));
    assert_eq!(m.client_disconnect(addr("c", "1")), ManagerReply::Disconnected);
    assert_eq!(m.clients_of_server(&addr("s", "1")), Some(0));
}
