use vstd::prelude::*;

use crate::json::{Field, FieldModel};
use crate::protocol::{text_is, Envelope, EnvelopeModel};

verus! {

/// The flags a server shares between its tasks: whether a shutdown was
/// ordered, and whether the manager acknowledged its registration, which
/// starts its heartbeats.
pub struct ServerFlags {
    pub shutdown: bool,
    pub started_udp: bool,
}

/// The state of a server node.
pub struct ServerNode {
    shutdown: bool,
    started_udp: bool,
}

impl View for ServerNode {
    type V = ServerFlags;

    closed spec fn view(&self) -> ServerFlags {
        ServerFlags { shutdown: self.shutdown, started_udp: self.started_udp }
    }
}

/// A message to a server, as it reads it.
pub enum ServerCommand {
    Shutdown,
    RegisterAck,
    Unrecognized { message_type: String },
    MissingType,
    TypeNotText,
}

/// The mathematical value of a [`ServerCommand`].
pub enum ServerCommandModel {
    Shutdown,
    RegisterAck,
    Unrecognized { message_type: Seq<char> },
    MissingType,
    TypeNotText,
}

impl View for ServerCommand {
    type V = ServerCommandModel;

    open spec fn view(&self) -> ServerCommandModel {
        match self {
            ServerCommand::Shutdown => ServerCommandModel::Shutdown,
            ServerCommand::RegisterAck => ServerCommandModel::RegisterAck,
            ServerCommand::Unrecognized { message_type } => ServerCommandModel::Unrecognized {
                message_type: message_type@,
            },
            ServerCommand::MissingType => ServerCommandModel::MissingType,
            ServerCommand::TypeNotText => ServerCommandModel::TypeNotText,
        }
    }
}

/// What a server answers to a message.
#[derive(PartialEq, Eq, Structural, Clone, Copy, Debug)]
pub enum ServerReply {
    ShutdownRequested,
    HeartbeatsStarted,
    Ignored,
}

/// How a server reads a received message.
pub open spec fn server_command_of(e: EnvelopeModel) -> ServerCommandModel {
    match e.message_type {
        FieldModel::Absent => ServerCommandModel::MissingType,
        FieldModel::Text(t) => if t == "shutdown"@ {
            ServerCommandModel::Shutdown
        } else if t == "register_ack"@ {
            ServerCommandModel::RegisterAck
        } else {
            ServerCommandModel::Unrecognized { message_type: t }
        },
        _ => ServerCommandModel::TypeNotText,
    }
}

/// Reads a received message as a message to a server.
pub fn server_command(e: Envelope) -> (res: ServerCommand)
    ensures
        res@ == server_command_of(e@),
{
    match e.message_type {
        Field::Absent => ServerCommand::MissingType,
        Field::Text(t) => {
            if text_is(&t, "shutdown") {
                ServerCommand::Shutdown
            } else if text_is(&t, "register_ack") {
                ServerCommand::RegisterAck
            } else {
                ServerCommand::Unrecognized { message_type: t }
            }
        },
        _ => ServerCommand::TypeNotText,
    }
}

/// How a server's flags change on a message, and what it answers.
pub open spec fn server_step(f: ServerFlags, c: ServerCommandModel) -> (ServerFlags, ServerReply) {
    match c {
        ServerCommandModel::Shutdown => (
            ServerFlags { shutdown: true, started_udp: f.started_udp },
            ServerReply::ShutdownRequested,
        ),
        ServerCommandModel::RegisterAck => (
            ServerFlags { shutdown: f.shutdown, started_udp: true },
            ServerReply::HeartbeatsStarted,
        ),
        _ => (f, ServerReply::Ignored),
    }
}

impl ServerNode {
    /// A server that is running and has not started its heartbeats.
    pub fn new() -> (res: ServerNode)
        ensures
            res@ == (ServerFlags { shutdown: false, started_udp: false }),
    {
        ServerNode { shutdown: false, started_udp: false }
    }

    /// Whether a shutdown was ordered.
    pub fn is_shutdown(&self) -> (res: bool)
        ensures
            res == self@.shutdown,
    {
        self.shutdown
    }

    /// Whether the heartbeats are to run.
    pub fn started_udp(&self) -> (res: bool)
        ensures
            res == self@.started_udp,
    {
        self.started_udp
    }

    /// Acts on a message to the server.
    pub fn handle(&mut self, command: ServerCommand) -> (reply: ServerReply)
        ensures
            (final(self)@, reply) == server_step(old(self)@, command@),
    {
        match command {
            ServerCommand::Shutdown => {
                self.shutdown = true;
                ServerReply::ShutdownRequested
            },
            ServerCommand::RegisterAck => {
                self.started_udp = true;
                ServerReply::HeartbeatsStarted
            },
            _ => ServerReply::Ignored,
        }
    }
}

/// A set flag stays set: no message clears the shutdown flag or stops the
/// heartbeats once started.
pub proof fn law_server_flags_stay_set(f: ServerFlags, c: ServerCommandModel)
    ensures
        f.shutdown ==> server_step(f, c).0.shutdown,
        f.started_udp ==> server_step(f, c).0.started_udp,
{
}

/// A message changes at most the flag it is about: only a shutdown order
/// sets the shutdown flag, and only the manager's acknowledgement starts
/// the heartbeats.
pub proof fn law_server_flags_change_only_on_their_message(f: ServerFlags, c: ServerCommandModel)
    ensures
        server_step(f, c).0.shutdown != f.shutdown ==> c is Shutdown,
        server_step(f, c).0.started_udp != f.started_udp ==> c is RegisterAck,
{
}

} // verus!
