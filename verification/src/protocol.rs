use vstd::prelude::*;

use crate::json::{
    canonical_json, json_canonical_of, json_field, json_field_of, json_text_parses, utf8_lossy,
    utf8_lossy_of, Field, FieldModel,
};

verus! {

/// The four entries of a received JSON document that any node reads.
pub struct Envelope {
    pub message_type: Field,
    pub host: Field,
    pub port: Field,
    pub max_clients: Field,
}

/// The mathematical value of an [`Envelope`].
pub struct EnvelopeModel {
    pub message_type: FieldModel,
    pub host: FieldModel,
    pub port: FieldModel,
    pub max_clients: FieldModel,
}

impl View for Envelope {
    type V = EnvelopeModel;

    open spec fn view(&self) -> EnvelopeModel {
        EnvelopeModel {
            message_type: self.message_type@,
            host: self.host@,
            port: self.port@,
            max_clients: self.max_clients@,
        }
    }
}

/// The entries of the JSON document `text` that the nodes read.
pub open spec fn envelope_of(text: Seq<char>) -> EnvelopeModel {
    EnvelopeModel {
        message_type: json_field_of(text, "message_type"@),
        host: json_field_of(text, "host"@),
        port: json_field_of(text, "port"@),
        max_clients: json_field_of(text, "max_clients"@),
    }
}

/// Reads the entries of a received text; `None` when it is not JSON.
pub fn read_envelope(text: &str) -> (res: Option<Envelope>)
    ensures
        res is Some <==> json_text_parses(text@),
        res matches Some(e) ==> e@ == envelope_of(text@),
{
    let message_type = match json_field(text, "message_type") {
        Some(f) => f,
        None => return None,
    };
    let host = match json_field(text, "host") {
        Some(f) => f,
        None => return None,
    };
    let port = match json_field(text, "port") {
        Some(f) => f,
        None => return None,
    };
    let max_clients = match json_field(text, "max_clients") {
        Some(f) => f,
        None => return None,
    };
    Some(Envelope { message_type, host, port, max_clients })
}

/// The text a node makes of the bytes it received: they are decoded
/// leniently as UTF-8, then read as JSON; `None` when that text is not JSON.
pub fn decode_envelope(bytes: &[u8]) -> (res: Option<Envelope>)
    ensures
        res is Some <==> json_text_parses(utf8_lossy_of(bytes@)),
        res matches Some(e) ==> e@ == envelope_of(utf8_lossy_of(bytes@)),
{
    let text = utf8_lossy(bytes);
    read_envelope(text.as_str())
}

/// Whether the string `t` is the text `lit`.
pub fn text_is(t: &String, lit: &str) -> (b: bool)
    ensures
        b == (t@ == lit@),
{
    let other = String::from_str(lit);
    *t == other
}

/// A required entry of a message that is missing or of the wrong kind.
#[derive(PartialEq, Eq, Structural, Clone, Copy, Debug)]
pub enum FieldFault {
    HostMissing,
    HostNotText,
    PortMissing,
    PortNotText,
    MaxClientsMissing,
    MaxClientsNotUnsigned,
}

/// A required string entry: its text, or the fault that stops the message.
pub open spec fn required_text(
    f: FieldModel,
    missing: FieldFault,
    not_text: FieldFault,
) -> Result<Seq<char>, FieldFault> {
    match f {
        FieldModel::Absent => Err(missing),
        FieldModel::Text(t) => Ok(t),
        _ => Err(not_text),
    }
}

/// Takes the text out of a required string entry.
pub fn take_text(f: Field, missing: FieldFault, not_text: FieldFault) -> (res: Result<
    String,
    FieldFault,
>)
    ensures
        match required_text(f@, missing, not_text) {
            Ok(t) => res matches Ok(s) && s@ == t,
            Err(e) => res == Err::<String, FieldFault>(e),
        },
{
    match f {
        Field::Absent => Err(missing),
        Field::Text(s) => Ok(s),
        _ => Err(not_text),
    }
}

/// The JSON text of a server's registration with the manager, before
/// serde_json reads and prints it back.
pub open spec fn register_text(host: Seq<char>, port: Seq<char>, max_clients: Seq<char>) -> Seq<
    char,
> {
    "{\"message_type\": \"register\", \"host\": \""@ + host + "\", \"port\": \""@ + port
        + "\", \"max_clients\": "@ + max_clients + "}"@
}

/// The JSON text of a server's heartbeat.
pub open spec fn heartbeat_text(host: Seq<char>, port: Seq<char>) -> Seq<char> {
    "{\"message_type\": \"heartbeat\", \"host\": \""@ + host + "\", \"port\": \""@ + port
        + "\"}"@
}

/// The JSON text of a client's request to be connected to a server.
pub open spec fn connect_text(host: Seq<char>, port: Seq<char>) -> Seq<char> {
    "{\"message_type\": \"client_connect\", \"host\": \""@ + host + "\", \"port\": \""@ + port
        + "\"}"@
}

/// The JSON text of a client's notice that it leaves its server.
pub open spec fn disconnect_text(host: Seq<char>, port: Seq<char>) -> Seq<char> {
    "{\"message_type\": \"client_disconnect\", \"host\": \""@ + host + "\", \"port\": \""@
        + port + "\"}"@
}

/// The JSON text of a shutdown order.
pub open spec fn shutdown_text() -> Seq<char> {
    "{\"message_type\": \"shutdown\"}"@
}

/// The JSON text of the manager's acknowledgement of a registration, the
/// message on which a server starts its heartbeats.
pub open spec fn ack_text() -> Seq<char> {
    "{\"message_type\": \"register_ack\"}"@
}

/// The JSON text by which the manager points a client at a server.
pub open spec fn redirect_text(host: Seq<char>, port: Seq<char>) -> Seq<char> {
    "{\"message_type\": \"redirect\", \"host\": \""@ + host + "\", \"port\": \""@ + port
        + "\"}"@
}

/// What goes on the wire for a document built as `text`: serde_json's print
/// of it, or `None` where serde_json refuses it.
pub open spec fn wire_form(text: Seq<char>) -> Option<Seq<char>> {
    if json_text_parses(text) {
        Some(json_canonical_of(text))
    } else {
        None
    }
}

/// Reads `text` as JSON and prints it back as it goes on the wire.
fn to_wire(text: &str) -> (res: Option<String>)
    ensures
        match wire_form(text@) {
            Some(w) => res matches Some(s) && s@ == w,
            None => res is None,
        },
{
    canonical_json(text)
}

/// The registration a server sends to the manager, as it goes on the wire;
/// `None` where the assembled text is not JSON (a `max_clients` that is not
/// a number, or a quote in a name).
pub fn register_request(host: &str, port: &str, max_clients: &str) -> (res: Option<String>)
    ensures
        match wire_form(register_text(host@, port@, max_clients@)) {
            Some(w) => res matches Some(s) && s@ == w,
            None => res is None,
        },
{
    let mut text = String::from_str("{\"message_type\": \"register\", \"host\": \"");
    text.append(host);
    text.append("\", \"port\": \"");
    text.append(port);
    text.append("\", \"max_clients\": ");
    text.append(max_clients);
    text.append("}");
    to_wire(text.as_str())
}

/// The heartbeat a server sends to the manager; it goes out as built.
pub fn heartbeat_message(host: &str, port: &str) -> (res: String)
    ensures
        res@ == heartbeat_text(host@, port@),
{
    let mut text = String::from_str("{\"message_type\": \"heartbeat\", \"host\": \"");
    text.append(host);
    text.append("\", \"port\": \"");
    text.append(port);
    text.append("\"}");
    text
}

/// A client's request to be connected, as it goes on the wire.
pub fn connect_request(host: &str, port: &str) -> (res: Option<String>)
    ensures
        match wire_form(connect_text(host@, port@)) {
            Some(w) => res matches Some(s) && s@ == w,
            None => res is None,
        },
{
    let mut text = String::from_str("{\"message_type\": \"client_connect\", \"host\": \"");
    text.append(host);
    text.append("\", \"port\": \"");
    text.append(port);
    text.append("\"}");
    to_wire(text.as_str())
}

/// A client's notice that it leaves, as it goes on the wire.
pub fn disconnect_request(host: &str, port: &str) -> (res: Option<String>)
    ensures
        match wire_form(disconnect_text(host@, port@)) {
            Some(w) => res matches Some(s) && s@ == w,
            None => res is None,
        },
{
    let mut text = String::from_str("{\"message_type\": \"client_disconnect\", \"host\": \"");
    text.append(host);
    text.append("\", \"port\": \"");
    text.append(port);
    text.append("\"}");
    to_wire(text.as_str())
}

/// A shutdown order, as it goes on the wire.
pub fn shutdown_request() -> (res: Option<String>)
    ensures
        match wire_form(shutdown_text()) {
            Some(w) => res matches Some(s) && s@ == w,
            None => res is None,
        },
{
    to_wire("{\"message_type\": \"shutdown\"}")
}

/// The manager's acknowledgement of a registration, as it goes on the wire.
pub fn ack_message() -> (res: Option<String>)
    ensures
        match wire_form(ack_text()) {
            Some(w) => res matches Some(s) && s@ == w,
            None => res is None,
        },
{
    to_wire("{\"message_type\": \"register_ack\"}")
}

/// The manager's order to a client to go to the server at `host`, `port`,
/// as it goes on the wire; `None` where the assembled text is not JSON.
pub fn redirect_request(host: &str, port: &str) -> (res: Option<String>)
    ensures
        match wire_form(redirect_text(host@, port@)) {
            Some(w) => res matches Some(s) && s@ == w,
            None => res is None,
        },
{
    let mut text = String::from_str("{\"message_type\": \"redirect\", \"host\": \"");
    text.append(host);
    text.append("\", \"port\": \"");
    text.append(port);
    text.append("\"}");
    to_wire(text.as_str())
}

} // verus!
