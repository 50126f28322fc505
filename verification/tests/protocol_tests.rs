use load_balancer::client::{client_command, ClientCommand, ClientNode, ClientReply};
use load_balancer::json::Field;
use load_balancer::manager::{manager_command, ManagerCommand};
use load_balancer::protocol::{
    ack_message, connect_request, decode_envelope, disconnect_request, heartbeat_message,
    read_envelope, redirect_request, register_request, shutdown_request, text_is, Envelope,
    FieldFault,
};
use load_balancer::server::{server_command, ServerCommand, ServerNode, ServerReply};

fn envelope(text: &str) -> Envelope {
    read_envelope(text).expect("the text is JSON")
}

#[test]
fn register_request_is_printed_compactly_with_sorted_keys() {
    let wire = register_request("127.0.0.1", "9001", "3").unwrap();
    assert_eq!(
        wire,
        "{\"host\":\"127.0.0.1\",\"max_clients\":3,\"message_type\":\"register\",\"port\":\"9001\"}"
    );
}

#[test]
fn register_request_with_non_numeric_max_clients_is_refused() {
    assert!(register_request("h", "p", "abc").is_none());
    assert!(register_request("h\"", "p", "1").is_none());
}

#[test]
fn heartbeat_goes_out_as_built() {
    assert_eq!(
        heartbeat_message("10.0.0.2", "7000"),
        "{\"message_type\": \"heartbeat\", \"host\": \"10.0.0.2\", \"port\": \"7000\"}"
    );
}

#[test]
fn client_requests_on_the_wire() {
    assert_eq!(
        connect_request("c", "5").unwrap(),
        "{\"host\":\"c\",\"message_type\":\"client_connect\",\"port\":\"5\"}"
    );
    assert_eq!(
        disconnect_request("c", "5").unwrap(),
        "{\"host\":\"c\",\"message_type\":\"client_disconnect\",\"port\":\"5\"}"
    );
    assert_eq!(shutdown_request().unwrap(), "{\"message_type\":\"shutdown\"}");
}

#[test]
fn ack_is_a_register_ack_object() {
    assert_eq!(ack_message().unwrap(), "{\"message_type\":\"register_ack\"}");
}

#[test]
fn ack_starts_the_heartbeats_of_a_server() {
    let e = decode_envelope(ack_message().unwrap().as_bytes()).unwrap();
    let mut node = ServerNode::new();
    let cmd = server_command(e);
    assert!(matches!(cmd, ServerCommand::RegisterAck));
    assert_eq!(node.handle(cmd), ServerReply::HeartbeatsStarted);
    assert!(node.started_udp());
}

#[test]
fn redirect_is_read_by_the_client() {
    let wire = redirect_request("10.0.0.5", "8001").unwrap();
    assert_eq!(
        wire,
        "{\"host\":\"10.0.0.5\",\"message_type\":\"redirect\",\"port\":\"8001\"}"
    );
    let cmd = client_command(decode_envelope(wire.as_bytes()).unwrap());
    assert!(matches!(cmd, ClientCommand::Redirect { host: Field::Text(ref h), port: Field::Text(ref p) } if h == "10.0.0.5" && p == "8001"));
    let mut node = ClientNode::new();
    assert_eq!(node.handle(&cmd), ClientReply::Redirected);
}

#[test]
fn decode_refuses_text_that_is_not_json() {
    assert!(decode_envelope(b"hello").is_none());
    assert!(decode_envelope(b"").is_none());
    assert!(decode_envelope(&[0x7b, 0xff, 0x7d]).is_none());
}

#[test]
fn decode_reads_the_four_entries() {
    let e = decode_envelope(
        b"{\"message_type\": \"register\", \"host\": \"a\", \"port\": \"b\", \"max_clients\": 4}",
    )
    .unwrap();
    assert!(matches!(e.message_type, Field::Text(ref t) if t == "register"));
    assert!(matches!(e.host, Field::Text(ref t) if t == "a"));
    assert!(matches!(e.port, Field::Text(ref t) if t == "b"));
    assert!(matches!(e.max_clients, Field::Unsigned(4)));
}

#[test]
fn decode_kinds_of_entries() {
    let e = envelope("{\"message_type\": 3, \"host\": -1, \"port\": 2.5, \"max_clients\": null}");
    assert!(matches!(e.message_type, Field::Unsigned(3)));
    assert!(matches!(e.host, Field::Other));
    assert!(matches!(e.port, Field::Other));
    assert!(matches!(e.max_clients, Field::Other));
    let e = envelope("[1, 2]");
    assert!(matches!(e.message_type, Field::Absent));
}

#[test]
fn text_is_compares_exactly() {
    assert!(text_is(&"shutdown".to_string(), "shutdown"));
    assert!(!text_is(&"shutdow".to_string(), "shutdown"));
    assert!(!text_is(&"Shutdown".to_string(), "shutdown"));
}

#[test]
fn what_a_server_sends_the_manager_reads_as_its_registration() {
    let wire = register_request("srv", "8080", "2").unwrap();
    let e = decode_envelope(wire.as_bytes()).unwrap();
    match manager_command(e) {
        ManagerCommand::Register { server, max_clients } => {
            assert_eq!(server.host, "srv");
            assert_eq!(server.port, "8080");
            assert_eq!(max_clients, 2);
        }
        _ => panic!("not read as a registration"),
    }
}

#[test]
fn what_a_client_sends_the_manager_reads_as_its_request() {
    let e = decode_envelope(connect_request("cl", "1").unwrap().as_bytes()).unwrap();
    assert!(matches!(manager_command(e), ManagerCommand::ClientConnect { client } if client.host == "cl" && client.port == "1"));
    let e = decode_envelope(disconnect_request("cl", "1").unwrap().as_bytes()).unwrap();
    assert!(matches!(manager_command(e), ManagerCommand::ClientDisconnect { client } if client.host == "cl" && client.port == "1"));
    let e = decode_envelope(shutdown_request().unwrap().as_bytes()).unwrap();
    assert!(matches!(manager_command(e), ManagerCommand::Shutdown));
}

#[test]
fn manager_reads_faulty_registrations() {
    let cases: Vec<(&str, FieldFault)> = vec![
        ("{\"message_type\": \"register\"}", FieldFault::HostMissing),
        ("{\"message_type\": \"register\", \"host\": 1}", FieldFault::HostNotText),
        ("{\"message_type\": \"register\", \"host\": \"h\"}", FieldFault::PortMissing),
        ("{\"message_type\": \"register\", \"host\": \"h\", \"port\": 2}", FieldFault::PortNotText),
        (
            "{\"message_type\": \"register\", \"host\": \"h\", \"port\": \"p\"}",
            FieldFault::MaxClientsMissing,
        ),
        (
            "{\"message_type\": \"register\", \"host\": \"h\", \"port\": \"p\", \"max_clients\": \"3\"}",
            FieldFault::MaxClientsNotUnsigned,
        ),
        (
            "{\"message_type\": \"register\", \"host\": \"h\", \"port\": \"p\", \"max_clients\": -3}",
            FieldFault::MaxClientsNotUnsigned,
        ),
        ("{\"message_type\": \"client_connect\", \"port\": \"p\"}", FieldFault::HostMissing),
        ("{\"message_type\": \"client_disconnect\", \"host\": \"h\"}", FieldFault::PortMissing),
    ];
    for (text, fault) in cases {
        match manager_command(envelope(text)) {
            ManagerCommand::Malformed(f) => assert_eq!(f, fault, "{}", text),
            _ => panic!("{} not read as malformed", text),
        }
    }
}

#[test]
fn manager_reads_other_messages() {
    assert!(matches!(manager_command(envelope("{}")), ManagerCommand::MissingType));
    assert!(matches!(
        manager_command(envelope("{\"message_type\": true}")),
        ManagerCommand::TypeNotText
    ));
    assert!(matches!(
        manager_command(envelope("{\"message_type\": \"heartbeat\", \"host\": \"h\", \"port\": \"p\"}")),
        ManagerCommand::Unrecognized { message_type } if message_type == "heartbeat"
    ));
    assert!(matches!(
        manager_command(envelope("{\"message_type\": \"shutdown\"}")),
        ManagerCommand::Shutdown
    ));
}

#[test]
fn server_reads_its_messages() {
    let mut node = ServerNode::new();
    assert!(!node.is_shutdown());
    let cmd = server_command(envelope("{\"message_type\": \"register_ack\"}"));
    assert_eq!(node.handle(cmd), ServerReply::HeartbeatsStarted);
    assert!(node.started_udp());
    let cmd = server_command(envelope("{\"message_type\": \"redirect\"}"));
    assert!(matches!(cmd, ServerCommand::Unrecognized { ref message_type } if message_type == "redirect"));
    assert_eq!(node.handle(cmd), ServerReply::Ignored);
    let cmd = server_command(envelope("{\"message_type\": 7}"));
    assert!(matches!(cmd, ServerCommand::TypeNotText));
    let cmd = server_command(envelope("{\"message_type\": \"shutdown\"}"));
    assert_eq!(node.handle(cmd), ServerReply::ShutdownRequested);
    assert!(node.is_shutdown());
    assert!(node.started_udp());
    let cmd = server_command(envelope("{\"message_type\": \"register_ack\"}"));
    node.handle(cmd);
    assert!(node.is_shutdown());
}

#[test]
fn client_reads_its_messages() {
    let mut node = ClientNode::new();
    let cmd = client_command(envelope("{\"message_type\": \"redirect\", \"host\": \"s\", \"port\": 9}"));
    assert!(matches!(cmd, ClientCommand::Redirect { host: Field::Text(ref h), port: Field::Unsigned(9) } if h == "s"));
    assert_eq!(node.handle(&cmd), ClientReply::Redirected);
    assert!(!node.is_shutdown());
    let cmd = client_command(envelope("{\"message_type\": \"redirect\", \"port\": 9}"));
    assert!(matches!(cmd, ClientCommand::Malformed(FieldFault::HostMissing)));
    let cmd = client_command(envelope("{\"message_type\": \"redirect\", \"host\": null}"));
    assert!(matches!(cmd, ClientCommand::Malformed(FieldFault::PortMissing)));
    let cmd = client_command(envelope("{\"message_type\": \"hello\"}"));
    assert_eq!(node.handle(&cmd), ClientReply::Ignored);
    let cmd = client_command(envelope("{\"message_type\": \"shutdown\"}"));
    assert_eq!(node.handle(&cmd), ClientReply::ShutdownRequested);
    assert!(node.is_shutdown());
    let cmd = client_command(envelope("{}"));
    assert!(matches!(cmd, ClientCommand::MissingType));
    node.handle(&cmd);
    assert!(node.is_shutdown());
}

#[test]
fn received_bytes_are_decoded_as_utf8() {
    let e = decode_envelope("{\"message_type\": \"héllo\"}".as_bytes()).unwrap();
    assert!(matches!(e.message_type, Field::Text(ref t) if t == "héllo"));
}

#[test]
fn invalid_utf8_inside_a_string_is_replaced() {
    let mut bytes = b"{\"message_type\": \"a".to_vec();
    bytes.push(0xff);
    bytes.extend_from_slice(b"\"}");
    let e = decode_envelope(&bytes).unwrap();
    assert!(matches!(e.message_type, Field::Text(ref t) if t == "a\u{FFFD}"));
}
