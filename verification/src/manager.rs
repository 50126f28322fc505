use std::collections::VecDeque;
use vstd::prelude::*;

use crate::json::{Field, FieldModel};
use crate::protocol::{required_text, take_text, text_is, Envelope, EnvelopeModel, FieldFault};
use crate::table::{Address, AddressModel, Table};

verus! {

#[verifier::external_type_specification]
#[verifier::external_body]
pub struct ExInstant(std::time::Instant);

/// Reads the clock with `std::time::Instant::now`. The result depends on
/// the time of the call, so nothing is claimed of it.
#[verifier::external_body]
fn instant_now() -> std::time::Instant {
    std::time::Instant::now()
}

/// Whether a registered server is taken to be running.
#[derive(PartialEq, Eq, Structural, Clone, Copy, Debug)]
pub enum Status {
    Alive,
    Dead,
}

/// What the manager knows of a registered server.
pub struct ServerInfo {
    pub host: String,
    pub port: String,
    pub time_since_last_heartbeat: std::time::Instant,
    pub num_clients: u64,
    pub max_clients: u64,
    pub status: Status,
}

/// The mathematical value of a [`ServerInfo`]; the registration time is
/// left out.
pub struct ServerModel {
    pub host: Seq<char>,
    pub port: Seq<char>,
    pub num_clients: u64,
    pub max_clients: u64,
    pub status: Status,
}

impl View for ServerInfo {
    type V = ServerModel;

    open spec fn view(&self) -> ServerModel {
        ServerModel {
            host: self.host@,
            port: self.port@,
            num_clients: self.num_clients,
            max_clients: self.max_clients,
            status: self.status,
        }
    }
}

/// The manager's state: its shutdown flag, the registered servers, the
/// order in which they were first registered (the round-robin order) with
/// the position from which the next search for a server starts, the
/// clients waiting for a server (oldest first), and the clients that are
/// connected to a server, each with that server's address.
pub struct ManagerModel {
    pub shutdown: bool,
    pub servers: Map<AddressModel, ServerModel>,
    pub order: Seq<AddressModel>,
    pub next: nat,
    pub queue: Seq<AddressModel>,
    pub assignments: Map<AddressModel, AddressModel>,
}

/// The state that a manager starts in.
pub open spec fn initial_manager() -> ManagerModel {
    ManagerModel {
        shutdown: false,
        servers: Map::empty(),
        order: Seq::empty(),
        next: 0,
        queue: Seq::empty(),
        assignments: Map::empty(),
    }
}

/// The state of the round-robin manager.
pub struct Manager {
    shutdown: bool,
    servers: Table<ServerInfo>,
    order: Vec<Address>,
    next: usize,
    clients_queue: VecDeque<Address>,
    all_clients: Table<Address>,
}

impl View for Manager {
    type V = ManagerModel;

    closed spec fn view(&self) -> ManagerModel {
        ManagerModel {
            shutdown: self.shutdown,
            servers: self.servers@.map_values(|s: ServerInfo| s@),
            order: self.order@.map_values(|a: Address| a@),
            next: self.next as nat,
            queue: self.clients_queue@.map_values(|a: Address| a@),
            assignments: self.all_clients@.map_values(|a: Address| a@),
        }
    }
}

/// What the manager answers to a message.
#[derive(PartialEq, Eq, Structural, Clone, Copy, Debug)]
pub enum ManagerReply {
    /// The shutdown flag is set.
    ShutdownRequested,
    /// The server is registered as alive; an acknowledgement is owed to it.
    Registered,
    /// A registration asked for fewer than one client.
    InvalidMaxClients,
    /// A registration named a server that is registered and alive.
    AlreadyRegistered,
    /// The client waits at the end of the queue.
    Queued,
    /// The client is already connected to a server.
    AlreadyInUse,
    /// The client is no longer connected to its server.
    Disconnected,
    /// A client that is not connected asked to disconnect.
    NotConnected,
    /// The message is not one that the manager acts on.
    Ignored,
}

/// A message to the manager, as it reads it.
pub enum ManagerCommand {
    Shutdown,
    Register { server: Address, max_clients: u64 },
    ClientConnect { client: Address },
    ClientDisconnect { client: Address },
    Unrecognized { message_type: String },
    MissingType,
    TypeNotText,
    /// A message whose required entries are missing or of the wrong kind;
    /// the manager stops on it.
    Malformed(FieldFault),
}

/// The mathematical value of a [`ManagerCommand`].
pub enum ManagerCommandModel {
    Shutdown,
    Register { server: AddressModel, max_clients: u64 },
    ClientConnect { client: AddressModel },
    ClientDisconnect { client: AddressModel },
    Unrecognized { message_type: Seq<char> },
    MissingType,
    TypeNotText,
    Malformed(FieldFault),
}

impl View for ManagerCommand {
    type V = ManagerCommandModel;

    open spec fn view(&self) -> ManagerCommandModel {
        match self {
            ManagerCommand::Shutdown => ManagerCommandModel::Shutdown,
            ManagerCommand::Register { server, max_clients } => ManagerCommandModel::Register {
                server: server@,
                max_clients: *max_clients,
            },
            ManagerCommand::ClientConnect { client } => ManagerCommandModel::ClientConnect {
                client: client@,
            },
            ManagerCommand::ClientDisconnect { client } => ManagerCommandModel::ClientDisconnect {
                client: client@,
            },
            ManagerCommand::Unrecognized { message_type } => ManagerCommandModel::Unrecognized {
                message_type: message_type@,
            },
            ManagerCommand::MissingType => ManagerCommandModel::MissingType,
            ManagerCommand::TypeNotText => ManagerCommandModel::TypeNotText,
            ManagerCommand::Malformed(f) => ManagerCommandModel::Malformed(*f),
        }
    }
}

/// The address that a client message names, or the fault that stops it.
pub open spec fn address_of(e: EnvelopeModel) -> Result<AddressModel, FieldFault> {
    match required_text(e.host, FieldFault::HostMissing, FieldFault::HostNotText) {
        Err(f) => Err(f),
        Ok(h) => match required_text(e.port, FieldFault::PortMissing, FieldFault::PortNotText) {
            Err(f) => Err(f),
            Ok(p) => Ok((h, p)),
        },
    }
}

/// How the manager reads a received message.
pub open spec fn manager_command_of(e: EnvelopeModel) -> ManagerCommandModel {
    match e.message_type {
        FieldModel::Absent => ManagerCommandModel::MissingType,
        FieldModel::Text(t) => if t == "shutdown"@ {
            ManagerCommandModel::Shutdown
        } else if t == "register"@ {
            match address_of(e) {
                Err(f) => ManagerCommandModel::Malformed(f),
                Ok(a) => match e.max_clients {
                    FieldModel::Absent => ManagerCommandModel::Malformed(
                        FieldFault::MaxClientsMissing,
                    ),
                    FieldModel::Unsigned(m) => ManagerCommandModel::Register {
                        server: a,
                        max_clients: m,
                    },
                    _ => ManagerCommandModel::Malformed(FieldFault::MaxClientsNotUnsigned),
                },
            }
        } else if t == "client_connect"@ {
            match address_of(e) {
                Err(f) => ManagerCommandModel::Malformed(f),
                Ok(a) => ManagerCommandModel::ClientConnect { client: a },
            }
        } else if t == "client_disconnect"@ {
            match address_of(e) {
                Err(f) => ManagerCommandModel::Malformed(f),
                Ok(a) => ManagerCommandModel::ClientDisconnect { client: a },
            }
        } else {
            ManagerCommandModel::Unrecognized { message_type: t }
        },
        _ => ManagerCommandModel::TypeNotText,
    }
}

/// Takes the address out of a client message.
fn take_address(host: Field, port: Field) -> (res: Result<Address, FieldFault>)
    ensures
        ({
            let e = EnvelopeModel {
                message_type: FieldModel::Absent,
                host: host@,
                port: port@,
                max_clients: FieldModel::Absent,
            };
            match address_of(e) {
                Ok(a) => res matches Ok(r) && r@ == a,
                Err(f) => res == Err::<Address, FieldFault>(f),
            }
        }),
{
    let h = match take_text(host, FieldFault::HostMissing, FieldFault::HostNotText) {
        Ok(h) => h,
        Err(f) => return Err(f),
    };
    let p = match take_text(port, FieldFault::PortMissing, FieldFault::PortNotText) {
        Ok(p) => p,
        Err(f) => return Err(f),
    };
    Ok(Address { host: h, port: p })
}

/// Reads a received message as a message to the manager.
pub fn manager_command(e: Envelope) -> (res: ManagerCommand)
    ensures
        res@ == manager_command_of(e@),
{
    let ghost em = e@;
    let Envelope { message_type, host, port, max_clients } = e;
    match message_type {
        Field::Absent => ManagerCommand::MissingType,
        Field::Text(t) => {
            if text_is(&t, "shutdown") {
                ManagerCommand::Shutdown
            } else if text_is(&t, "register") {
                match take_address(host, port) {
                    Err(f) => ManagerCommand::Malformed(f),
                    Ok(a) => match max_clients {
                        Field::Absent => ManagerCommand::Malformed(FieldFault::MaxClientsMissing),
                        Field::Unsigned(m) => ManagerCommand::Register { server: a, max_clients: m },
                        _ => ManagerCommand::Malformed(FieldFault::MaxClientsNotUnsigned),
                    },
                }
            } else if text_is(&t, "client_connect") {
                match take_address(host, port) {
                    Err(f) => ManagerCommand::Malformed(f),
                    Ok(a) => ManagerCommand::ClientConnect { client: a },
                }
            } else if text_is(&t, "client_disconnect") {
                match take_address(host, port) {
                    Err(f) => ManagerCommand::Malformed(f),
                    Ok(a) => ManagerCommand::ClientDisconnect { client: a },
                }
            } else {
                ManagerCommand::Unrecognized { message_type: t }
            }
        },
        _ => ManagerCommand::TypeNotText,
    }
}

/// The clients connected to the server `s`.
pub open spec fn clients_of(a: Map<AddressModel, AddressModel>, s: AddressModel) -> Set<AddressModel> {
    a.dom().filter(|c: AddressModel| a[c] == s)
}

/// A registration: refused when it asks for fewer than one client or names
/// a server that is registered and alive; otherwise the server is recorded
/// as alive with no clients, replacing any earlier record of it. A server
/// registered for the first time joins the end of the round-robin order;
/// one that registers again keeps its place. The connections are left as
/// they are.
pub open spec fn register_step(m: ManagerModel, server: AddressModel, max_clients: u64) -> (
    ManagerModel,
    ManagerReply,
) {
    if max_clients < 1 {
        (m, ManagerReply::InvalidMaxClients)
    } else if m.servers.contains_key(server) && m.servers[server].status == Status::Alive {
        (m, ManagerReply::AlreadyRegistered)
    } else {
        (
            ManagerModel {
                shutdown: m.shutdown,
                servers: m.servers.insert(
                    server,
                    ServerModel {
                        host: server.0,
                        port: server.1,
                        num_clients: 0,
                        max_clients,
                        status: Status::Alive,
                    },
                ),
                order: if m.servers.contains_key(server) {
                    m.order
                } else {
                    m.order.push(server)
                },
                next: m.next,
                queue: m.queue,
                assignments: m.assignments,
            },
            ManagerReply::Registered,
        )
    }
}

/// The acknowledgement to a server could not be delivered: the server, if
/// registered, is recorded as dead.
pub open spec fn ack_failed_step(m: ManagerModel, server: AddressModel) -> ManagerModel {
    if m.servers.contains_key(server) {
        let s = m.servers[server];
        ManagerModel {
            servers: m.servers.insert(
                server,
                ServerModel {
                    host: s.host,
                    port: s.port,
                    num_clients: s.num_clients,
                    max_clients: s.max_clients,
                    status: Status::Dead,
                },
            ),
            ..m
        }
    } else {
        m
    }
}

/// A client asks for a server: refused when it is connected already,
/// otherwise it joins the end of the queue.
pub open spec fn connect_step(m: ManagerModel, client: AddressModel) -> (
    ManagerModel,
    ManagerReply,
) {
    if m.assignments.contains_key(client) {
        (m, ManagerReply::AlreadyInUse)
    } else {
        (ManagerModel { queue: m.queue.push(client), ..m }, ManagerReply::Queued)
    }
}

/// A client leaves: when it is connected, it is removed and its server,
/// if registered, counts one client less.
pub open spec fn disconnect_step(m: ManagerModel, client: AddressModel) -> (
    ManagerModel,
    ManagerReply,
) {
    if m.assignments.contains_key(client) {
        let server = m.assignments[client];
        let servers = if m.servers.contains_key(server) {
            let s = m.servers[server];
            m.servers.insert(
                server,
                ServerModel {
                    host: s.host,
                    port: s.port,
                    num_clients: (s.num_clients - 1) as u64,
                    max_clients: s.max_clients,
                    status: s.status,
                },
            )
        } else {
            m.servers
        };
        (
            ManagerModel { servers, assignments: m.assignments.remove(client), ..m },
            ManagerReply::Disconnected,
        )
    } else {
        (m, ManagerReply::NotConnected)
    }
}

/// A shutdown order sets the flag.
pub open spec fn shutdown_step(m: ManagerModel) -> (ManagerModel, ManagerReply) {
    (ManagerModel { shutdown: true, ..m }, ManagerReply::ShutdownRequested)
}

/// How the manager's state changes on a message, and what it answers.
pub open spec fn manager_step(m: ManagerModel, c: ManagerCommandModel) -> (
    ManagerModel,
    ManagerReply,
) {
    match c {
        ManagerCommandModel::Shutdown => shutdown_step(m),
        ManagerCommandModel::Register { server, max_clients } => register_step(
            m,
            server,
            max_clients,
        ),
        ManagerCommandModel::ClientConnect { client } => connect_step(m, client),
        ManagerCommandModel::ClientDisconnect { client } => disconnect_step(m, client),
        _ => (m, ManagerReply::Ignored),
    }
}

/// Position `j` of the round-robin order counted from position `next`,
/// wrapping around at `n`.
pub open spec fn cyclic_index(next: nat, j: nat, n: nat) -> nat {
    if next + j < n {
        next + j
    } else {
        (next + j - n) as nat
    }
}

/// Whether the server `s` can take another client: it is registered,
/// alive, and has fewer clients than it asked for.
pub open spec fn eligible(m: ManagerModel, s: AddressModel) -> bool {
    &&& m.servers.contains_key(s)
    &&& m.servers[s].status == Status::Alive
    &&& m.servers[s].num_clients < m.servers[s].max_clients
}

/// The first step `j`, from step `from` on, at which the round-robin order,
/// counted from `m.next`, reaches a server that can take another client.
pub open spec fn first_eligible(m: ManagerModel, from: nat) -> Option<nat>
    decreases m.order.len() - from,
{
    if from >= m.order.len() {
        None
    } else if eligible(m, m.order[cyclic_index(m.next, from, m.order.len()) as int]) {
        Some(from)
    } else {
        first_eligible(m, from + 1)
    }
}

/// The round-robin assignment of the client at the front of the queue.
/// A client that is connected already leaves the queue without a second
/// server. Otherwise the order is searched from the position after the
/// server chosen last, wrapping around, for a server that is alive and can
/// take another client; if there is one, the client leaves the queue, is
/// connected to that server, the server counts one client more, the search
/// will next start after it, and the client and server are returned. If
/// there is none, nothing changes.
pub open spec fn assign_step(m: ManagerModel) -> (
    ManagerModel,
    Option<(AddressModel, AddressModel)>,
) {
    if m.queue.len() == 0 {
        (m, None)
    } else if m.assignments.contains_key(m.queue[0]) {
        (ManagerModel { queue: m.queue.drop_first(), ..m }, None)
    } else {
        match first_eligible(m, 0) {
            None => (m, None),
            Some(j) => {
                let i = cyclic_index(m.next, j, m.order.len());
                let s = m.order[i as int];
                let c = m.queue[0];
                let info = m.servers[s];
                (
                    ManagerModel {
                        servers: m.servers.insert(
                            s,
                            ServerModel {
                                host: info.host,
                                port: info.port,
                                num_clients: (info.num_clients + 1) as u64,
                                max_clients: info.max_clients,
                                status: info.status,
                            },
                        ),
                        next: i + 1,
                        queue: m.queue.drop_first(),
                        assignments: m.assignments.insert(c, s),
                        ..m
                    },
                    Some((c, s)),
                )
            },
        }
    }
}

/// Whether a disconnect notice from `client` can be taken without the
/// server's count going below zero: the client is not connected, or its
/// server counts at least one client. Where it fails, the count would
/// underflow.
pub open spec fn disconnect_allowed(m: ManagerModel, client: AddressModel) -> bool {
    m.assignments.contains_key(client) && m.servers.contains_key(m.assignments[client])
        ==> m.servers[m.assignments[client]].num_clients >= 1
}

/// Whether a message can be taken: a disconnect notice only where
/// [`disconnect_allowed`] holds.
pub open spec fn command_allowed(m: ManagerModel, c: ManagerCommandModel) -> bool {
    match c {
        ManagerCommandModel::ClientDisconnect { client } => disconnect_allowed(m, client),
        _ => true,
    }
}

/// Whether every registered server counts exactly the clients connected
/// to it.
pub open spec fn counts_exact(m: ManagerModel) -> bool {
    forall|k: AddressModel| #[trigger]
        m.servers.contains_key(k) ==> m.servers[k].num_clients == clients_of(m.assignments, k).len()
}

/// The invariant of the manager's state: each registered server is
/// recorded under its own address, asks for at least one client, has no
/// more clients than it asked for, and counts no more clients than are
/// connected to it (a server that registers again starts counting from
/// zero while its earlier connections stay); the round-robin order holds
/// each registered server once and nothing else; every connected client is
/// connected to a registered server.
pub open spec fn manager_valid(m: ManagerModel) -> bool {
    &&& forall|k: AddressModel| #[trigger]
        m.servers.contains_key(k) ==> {
            &&& m.servers[k].host == k.0
            &&& m.servers[k].port == k.1
            &&& m.servers[k].max_clients >= 1
            &&& m.servers[k].num_clients <= m.servers[k].max_clients
            &&& m.servers[k].num_clients <= clients_of(m.assignments, k).len()
        }
    &&& forall|k: AddressModel| #[trigger] m.servers.contains_key(k) ==> m.order.contains(k)
    &&& forall|i: int| 0 <= i < m.order.len() ==> m.servers.contains_key(#[trigger] m.order[i])
    &&& forall|i: int, j: int| 0 <= i < j < m.order.len() ==> m.order[i] != m.order[j]
    &&& m.next <= m.order.len()
    &&& m.assignments.dom().finite()
    &&& forall|c: AddressModel| #[trigger]
        m.assignments.contains_key(c) ==> m.servers.contains_key(m.assignments[c])
}

proof fn lemma_clients_insert(
    a: Map<AddressModel, AddressModel>,
    c: AddressModel,
    s: AddressModel,
    t: AddressModel,
)
    requires
        a.dom().finite(),
        !a.contains_key(c),
    ensures
        clients_of(a, t).finite(),
        clients_of(a.insert(c, s), t).len() == clients_of(a, t).len() + if t == s {
            1int
        } else {
            0int
        },
{
    if t == s {
        assert(clients_of(a.insert(c, s), t) =~= clients_of(a, t).insert(c));
    } else {
        assert(clients_of(a.insert(c, s), t) =~= clients_of(a, t));
    }
}

proof fn lemma_clients_remove(a: Map<AddressModel, AddressModel>, c: AddressModel, t: AddressModel)
    requires
        a.dom().finite(),
        a.contains_key(c),
    ensures
        clients_of(a, t).finite(),
        a[c] == t ==> clients_of(a, t).len() >= 1,
        clients_of(a.remove(c), t).len() == clients_of(a, t).len() - if a[c] == t {
            1int
        } else {
            0int
        },
{
    if a[c] == t {
        assert(clients_of(a.remove(c), t) =~= clients_of(a, t).remove(c));
        assert(clients_of(a, t).contains(c));
    } else {
        assert(clients_of(a.remove(c), t) =~= clients_of(a, t));
    }
}

proof fn lemma_first_eligible(m: ManagerModel, from: nat)
    ensures
        first_eligible(m, from) matches Some(j) ==> {
            &&& from <= j < m.order.len()
            &&& eligible(m, m.order[cyclic_index(m.next, j, m.order.len()) as int])
            &&& forall|k: nat|
                from <= k < j ==> !eligible(
                    m,
                    #[trigger] m.order[cyclic_index(m.next, k, m.order.len()) as int],
                )
        },
        first_eligible(m, from) is None ==> forall|k: nat|
            from <= k < m.order.len() ==> !eligible(
                m,
                #[trigger] m.order[cyclic_index(m.next, k, m.order.len()) as int],
            ),
    decreases m.order.len() - from,
{
    if from < m.order.len() {
        lemma_first_eligible(m, from + 1);
    }
}

proof fn lemma_register_valid(m: ManagerModel, server: AddressModel, max_clients: u64)
    requires
        manager_valid(m),
    ensures
        manager_valid(register_step(m, server, max_clients).0),
{
    let m2 = register_step(m, server, max_clients).0;
    if register_step(m, server, max_clients).1 == ManagerReply::Registered {
        assert forall|k: AddressModel| #[trigger] m2.servers.contains_key(k) implies {
            &&& m2.servers[k].host == k.0
            &&& m2.servers[k].port == k.1
            &&& m2.servers[k].max_clients >= 1
            &&& m2.servers[k].num_clients <= m2.servers[k].max_clients
            &&& m2.servers[k].num_clients <= clients_of(m2.assignments, k).len()
        } by {
        }
        assert forall|k: AddressModel| #[trigger] m2.servers.contains_key(k) implies m2.order.contains(
            k,
        ) by {
            if k == server && !m.servers.contains_key(server) {
                assert(m2.order[m.order.len() as int] == server);
            } else if k != server {
                let i = choose|i: int| 0 <= i < m.order.len() && m.order[i] == k;
                assert(m2.order[i] == k);
            }
        }
        assert forall|i: int, j: int| 0 <= i < j < m2.order.len() implies m2.order[i]
            != m2.order[j] by {
            if !m.servers.contains_key(server) && j == m.order.len() {
                assert(m.servers.contains_key(m.order[i]));
            }
        }
        assert forall|i: int| 0 <= i < m2.order.len() implies m2.servers.contains_key(
            #[trigger] m2.order[i],
        ) by {
            if i < m.order.len() {
                assert(m2.order[i] == m.order[i]);
            }
        }
    }
}

proof fn lemma_ack_failed_valid(m: ManagerModel, server: AddressModel)
    requires
        manager_valid(m),
    ensures
        manager_valid(ack_failed_step(m, server)),
{
    let m2 = ack_failed_step(m, server);
    assert forall|k: AddressModel| #[trigger] m2.servers.contains_key(k) implies m2.order.contains(
        k,
    ) by {
        assert(m.servers.contains_key(k));
    }
}

proof fn lemma_disconnect_valid(m: ManagerModel, client: AddressModel)
    requires
        manager_valid(m),
        disconnect_allowed(m, client),
    ensures
        manager_valid(disconnect_step(m, client).0),
{
    let m2 = disconnect_step(m, client).0;
    if m.assignments.contains_key(client) {
        let s = m.assignments[client];
        lemma_clients_remove(m.assignments, client, s);
        assert forall|k: AddressModel| #[trigger] m2.servers.contains_key(k) implies {
            &&& m2.servers[k].host == k.0
            &&& m2.servers[k].port == k.1
            &&& m2.servers[k].max_clients >= 1
            &&& m2.servers[k].num_clients <= m2.servers[k].max_clients
            &&& m2.servers[k].num_clients <= clients_of(m2.assignments, k).len()
        } by {
            lemma_clients_remove(m.assignments, client, k);
        }
        assert forall|k: AddressModel| #[trigger] m2.servers.contains_key(k) implies m2.order.contains(
            k,
        ) by {
            assert(m.servers.contains_key(k));
        }
        assert forall|c: AddressModel| #[trigger] m2.assignments.contains_key(c) implies m2.servers.contains_key(
            m2.assignments[c],
        ) by {
            assert(m.assignments.contains_key(c));
        }
    }
}

proof fn lemma_assign_valid(m: ManagerModel)
    requires
        manager_valid(m),
    ensures
        manager_valid(assign_step(m).0),
{
    let m2 = assign_step(m).0;
    if m.queue.len() > 0 && !m.assignments.contains_key(m.queue[0]) {
        lemma_first_eligible(m, 0);
        if let Some(j) = first_eligible(m, 0) {
            let i = cyclic_index(m.next, j, m.order.len());
            let s = m.order[i as int];
            let c = m.queue[0];
            lemma_clients_insert(m.assignments, c, s, s);
            assert forall|k: AddressModel| #[trigger] m2.servers.contains_key(k) implies {
                &&& m2.servers[k].host == k.0
                &&& m2.servers[k].port == k.1
                &&& m2.servers[k].max_clients >= 1
                &&& m2.servers[k].num_clients <= m2.servers[k].max_clients
                &&& m2.servers[k].num_clients <= clients_of(m2.assignments, k).len()
            } by {
                lemma_clients_insert(m.assignments, c, s, k);
            }
            assert forall|k: AddressModel| #[trigger] m2.servers.contains_key(k) implies m2.order.contains(
                k,
            ) by {
                assert(m.servers.contains_key(k));
            }
            assert forall|x: AddressModel| #[trigger] m2.assignments.contains_key(x) implies m2.servers.contains_key(
                m2.assignments[x],
            ) by {
                if x != c {
                    assert(m.assignments.contains_key(x));
                }
            }
        }
    }
}

/// Every message that can be taken keeps the manager's invariant, and so
/// do a failed acknowledgement and a round-robin assignment: each server
/// counts no more clients than it asked for and no more than are connected
/// to it, and the round-robin order holds each registered server once.
pub proof fn law_manager_invariant_kept(m: ManagerModel, c: ManagerCommandModel, a: AddressModel)
    requires
        manager_valid(m),
        command_allowed(m, c),
    ensures
        manager_valid(manager_step(m, c).0),
        manager_valid(ack_failed_step(m, a)),
        manager_valid(assign_step(m).0),
{
    match c {
        ManagerCommandModel::Register { server, max_clients } => lemma_register_valid(
            m,
            server,
            max_clients,
        ),
        ManagerCommandModel::ClientDisconnect { client } => lemma_disconnect_valid(m, client),
        ManagerCommandModel::ClientConnect { client } => {
            let m2 = manager_step(m, c).0;
            assert forall|k: AddressModel| #[trigger] m2.servers.contains_key(k) implies m2.order.contains(
                k,
            ) by {
                assert(m.servers.contains_key(k));
            }
        },
        _ => {
            let m2 = manager_step(m, c).0;
            assert forall|k: AddressModel| #[trigger] m2.servers.contains_key(k) implies m2.order.contains(
                k,
            ) by {
                assert(m.servers.contains_key(k));
            }
        },
    }
    lemma_ack_failed_valid(m, a);
    lemma_assign_valid(m);
}

impl Manager {
    /// The manager's representation invariant.
    pub closed spec fn wf(&self) -> bool {
        &&& self.servers.wf()
        &&& self.all_clients.wf()
        &&& manager_valid(self@)
    }

    /// A manager with no servers and no clients, not shut down.
    pub fn new() -> (res: Manager)
        ensures
            res.wf(),
            res@ == initial_manager(),
    {
        let res = Manager {
            shutdown: false,
            servers: Table::new(),
            order: Vec::new(),
            next: 0,
            clients_queue: VecDeque::new(),
            all_clients: Table::new(),
        };
        proof {
            assert(res@.servers =~= Map::<AddressModel, ServerModel>::empty());
            assert(res@.order =~= Seq::<AddressModel>::empty());
            assert(res@.queue =~= Seq::<AddressModel>::empty());
            assert(res@.assignments =~= Map::<AddressModel, AddressModel>::empty());
        }
        res
    }

    /// Whether a shutdown was ordered.
    pub fn is_shutdown(&self) -> (res: bool)
        ensures
            res == self@.shutdown,
    {
        self.shutdown
    }

    /// Whether no client waits for a server.
    pub fn queue_is_empty(&self) -> (res: bool)
        ensures
            res == (self@.queue.len() == 0),
    {
        self.clients_queue.len() == 0
    }

    /// A valid manager's state keeps the model-level invariant.
    pub proof fn lemma_wf_valid(&self)
        requires
            self.wf(),
        ensures
            manager_valid(self@),
    {
    }

    /// Whether a disconnect notice from `client` can be taken, that is,
    /// whether [`disconnect_allowed`] holds.
    pub fn can_disconnect(&self, client: &Address) -> (res: bool)
        requires
            self.wf(),
        ensures
            res == disconnect_allowed(self@, client@),
    {
        match self.all_clients.get(&client.host, &client.port) {
            None => true,
            Some(server) => match self.servers.get(&server.host, &server.port) {
                None => true,
                Some(info) => info.num_clients >= 1,
            },
        }
    }

    /// The number of clients connected to `server`, if it is registered.
    pub fn clients_of_server(&self, server: &Address) -> (res: Option<u64>)
        requires
            self.wf(),
        ensures
            match res {
                Some(n) => self@.servers.contains_key(server@) && n
                    == self@.servers[server@].num_clients,
                None => !self@.servers.contains_key(server@),
            },
    {
        match self.servers.get(&server.host, &server.port) {
            Some(info) => Some(info.num_clients),
            None => None,
        }
    }

    /// The server that `client` is connected to, if any.
    pub fn server_of_client(&self, client: &Address) -> (res: Option<Address>)
        requires
            self.wf(),
        ensures
            match res {
                Some(s) => self@.assignments.contains_key(client@) && s@
                    == self@.assignments[client@],
                None => !self@.assignments.contains_key(client@),
            },
    {
        match self.all_clients.get(&client.host, &client.port) {
            Some(s) => Some(s.copy()),
            None => None,
        }
    }

    /// Sets the shutdown flag.
    pub fn request_shutdown(&mut self) -> (reply: ManagerReply)
        requires
            old(self).wf(),
        ensures
            final(self).wf(),
            (final(self)@, reply) == shutdown_step(old(self)@),
    {
        self.shutdown = true;
        proof {
            assert(self@ == shutdown_step(old(self)@).0);
            law_manager_invariant_kept(old(self)@, ManagerCommandModel::Shutdown, (Seq::empty(), Seq::empty()));
        }
        ManagerReply::ShutdownRequested
    }

    /// Registers a server that asks for `max_clients` clients.
    pub fn register(&mut self, server: Address, max_clients: u64) -> (reply: ManagerReply)
        requires
            old(self).wf(),
        ensures
            final(self).wf(),
            (final(self)@, reply) == register_step(old(self)@, server@, max_clients),
    {
        if max_clients < 1 {
            return ManagerReply::InvalidMaxClients;
        }
        let alive = match self.servers.get(&server.host, &server.port) {
            Some(info) => info.status == Status::Alive,
            None => false,
        };
        if alive {
            return ManagerReply::AlreadyRegistered;
        }
        let known = self.servers.contains(&server.host, &server.port);
        let info = ServerInfo {
            host: server.host.clone(),
            port: server.port.clone(),
            time_since_last_heartbeat: instant_now(),
            num_clients: 0,
            max_clients,
            status: Status::Alive,
        };
        let ghost k = server@;
        let ghost model = info@;
        if !known {
            self.order.push(server.copy());
        }
        self.servers.put(server, info);
        proof {
            let target = register_step(old(self)@, k, max_clients).0;
            assert(self@.servers =~= target.servers);
            assert(self@.order =~= target.order);
            assert(self@.assignments =~= target.assignments);
            lemma_register_valid(old(self)@, k, max_clients);
        }
        ManagerReply::Registered
    }

    /// Records that the acknowledgement to `server` could not be delivered.
    pub fn ack_failed(&mut self, server: &Address)
        requires
            old(self).wf(),
        ensures
            final(self).wf(),
            final(self)@ == ack_failed_step(old(self)@, server@),
    {
        let ghost k = server@;
        match self.servers.take(&server.host, &server.port) {
            None => {
                proof {
                    assert(self@.servers =~= old(self)@.servers);
                }
            },
            Some(info) => {
                let mut info = info;
                info.status = Status::Dead;
                let ghost model = info@;
                self.servers.put(server.copy(), info);
                proof {
                    assert(self@.servers =~= old(self)@.servers.insert(k, model));
                }
            },
        }
        proof {
            lemma_ack_failed_valid(old(self)@, k);
        }
    }

    /// A client asks to be given a server.
    pub fn client_connect(&mut self, client: Address) -> (reply: ManagerReply)
        requires
            old(self).wf(),
        ensures
            final(self).wf(),
            (final(self)@, reply) == connect_step(old(self)@, client@),
    {
        if self.all_clients.contains(&client.host, &client.port) {
            return ManagerReply::AlreadyInUse;
        }
        let ghost k = client@;
        self.clients_queue.push_back(client);
        proof {
            assert(self@.queue =~= old(self)@.queue.push(k));
            law_manager_invariant_kept(old(self)@, ManagerCommandModel::ClientConnect { client: k }, k);
        }
        ManagerReply::Queued
    }

    /// A client leaves its server. Where its server counts no client (it
    /// registered again after the client connected), the count would go
    /// below zero, so such a notice is not taken: see [`disconnect_allowed`].
    pub fn client_disconnect(&mut self, client: Address) -> (reply: ManagerReply)
        requires
            old(self).wf(),
            disconnect_allowed(old(self)@, client@),
        ensures
            final(self).wf(),
            (final(self)@, reply) == disconnect_step(old(self)@, client@),
    {
        let ghost k = client@;
        match self.all_clients.take(&client.host, &client.port) {
            None => {
                proof {
                    assert(self@.assignments =~= old(self)@.assignments);
                }
                ManagerReply::NotConnected
            },
            Some(server) => {
                let ghost s = server@;
                proof {
                    assert(old(self)@.assignments.contains_key(k));
                    assert(old(self)@.assignments[k] == s);
                    lemma_clients_remove(old(self)@.assignments, k, s);
                    assert(self@.assignments =~= old(self)@.assignments.remove(k));
                }
                match self.servers.take(&server.host, &server.port) {
                    None => {
                        proof {
                            assert(self@.servers =~= old(self)@.servers);
                        }
                    },
                    Some(info) => {
                        let mut info = info;
                        info.num_clients = info.num_clients - 1;
                        let ghost model = info@;
                        self.servers.put(server, info);
                        proof {
                            assert(self@.servers =~= old(self)@.servers.insert(s, model));
                        }
                    },
                }
                proof {
                    lemma_disconnect_valid(old(self)@, k);
                }
                ManagerReply::Disconnected
            },
        }
    }

    /// Gives the client at the front of the queue a server, round robin:
    /// see [`assign_step`]. Returns the client and its server when one was
    /// found.
    pub fn assign_next(&mut self) -> (res: Option<(Address, Address)>)
        requires
            old(self).wf(),
        ensures
            final(self).wf(),
            final(self)@ == assign_step(old(self)@).0,
            match assign_step(old(self)@).1 {
                Some((c, s)) => res matches Some(r) && r.0@ == c && r.1@ == s,
                None => res is None,
            },
    {
        let ghost m = self@;
        proof {
            lemma_assign_valid(m);
        }
        if self.clients_queue.len() == 0 {
            return None;
        }
        if self.all_clients.contains(&self.clients_queue[0].host, &self.clients_queue[0].port) {
            let _ = self.clients_queue.pop_front();
            proof {
                assert(self@.queue =~= m.queue.drop_first());
            }
            return None;
        }
        let n = self.order.len();
        let mut j: usize = 0;
        let mut found: Option<usize> = None;
        while j < n
            invariant_except_break
                found is None,
                first_eligible(m, 0) == first_eligible(m, j as nat),
            invariant
                self@ == m,
                self.wf(),
                n == self.order@.len(),
                n == m.order.len(),
                j <= n,
            ensures
                found is None ==> j == n && first_eligible(m, 0) == first_eligible(m, j as nat),
                found matches Some(i) ==> j < n && first_eligible(m, 0) == Some(j as nat) && i
                    == cyclic_index(m.next, j as nat, m.order.len()),
            decreases n - j,
        {
            let i = if j < n - self.next {
                self.next + j
            } else {
                j - (n - self.next)
            };
            assert(i as nat == cyclic_index(m.next, j as nat, m.order.len()));
            assert(self.order@[i as int]@ == m.order[i as int]);
            let ok = match self.servers.get(&self.order[i].host, &self.order[i].port) {
                Some(info) => info.status == Status::Alive && info.num_clients < info.max_clients,
                None => false,
            };
            if ok {
                found = Some(i);
                break;
            }
            j = j + 1;
        }
        let i = match found {
            None => return None,
            Some(i) => i,
        };
        let ghost s = m.order[i as int];
        let ghost c = m.queue[0];
        proof {
            lemma_first_eligible(m, 0);
        }
        let server = self.order[i].copy();
        let client = match self.clients_queue.pop_front() {
            Some(c) => c,
            None => return None,
        };
        match self.servers.take(&server.host, &server.port) {
            None => {},
            Some(info) => {
                let mut info = info;
                info.num_clients = info.num_clients + 1;
                let ghost model = info@;
                self.servers.put(server.copy(), info);
                proof {
                    assert(self@.servers =~= m.servers.insert(s, model));
                }
            },
        }
        self.all_clients.put(client.copy(), server.copy());
        self.next = i + 1;
        proof {
            assert(self@.queue =~= m.queue.drop_first());
            assert(self@.assignments =~= m.assignments.insert(c, s));
        }
        Some((client, server))
    }

    /// Acts on a message to the manager; a disconnect notice only where
    /// [`disconnect_allowed`] holds.
    pub fn handle(&mut self, command: ManagerCommand) -> (reply: ManagerReply)
        requires
            old(self).wf(),
            !(command is Malformed),
            command_allowed(old(self)@, command@),
        ensures
            final(self).wf(),
            (final(self)@, reply) == manager_step(old(self)@, command@),
    {
        match command {
            ManagerCommand::Shutdown => self.request_shutdown(),
            ManagerCommand::Register { server, max_clients } => self.register(server, max_clients),
            ManagerCommand::ClientConnect { client } => self.client_connect(client),
            ManagerCommand::ClientDisconnect { client } => self.client_disconnect(client),
            _ => ManagerReply::Ignored,
        }
    }
}

/// A shutdown, once ordered, is never undone.
pub proof fn law_manager_shutdown_stays(m: ManagerModel, c: ManagerCommandModel, a: AddressModel)
    ensures
        m.shutdown ==> manager_step(m, c).0.shutdown,
        m.shutdown ==> ack_failed_step(m, a).shutdown,
        assign_step(m).0.shutdown == m.shutdown,
        manager_step(m, c).0.shutdown != m.shutdown ==> c is Shutdown,
{
}

/// The waiting clients form a queue: no message reorders or drops a
/// waiting client, a client that asks for a server (and is not connected)
/// joins at the end, and only an assignment takes the client at the front.
pub proof fn law_queue_is_first_in_first_out(m: ManagerModel, c: ManagerCommandModel)
    ensures
        ({
            let q = manager_step(m, c).0.queue;
            &&& m.queue.len() <= q.len() <= m.queue.len() + 1
            &&& q.subrange(0, m.queue.len() as int) == m.queue
            &&& c matches ManagerCommandModel::ClientConnect { client } ==> (
            !m.assignments.contains_key(client) ==> q == m.queue.push(client))
            &&& !(c is ClientConnect) ==> q == m.queue
        }),
        assign_step(m).0.queue == m.queue || (m.queue.len() > 0 && assign_step(m).0.queue
            == m.queue.drop_first()),
{
    let q = manager_step(m, c).0.queue;
    assert(q.subrange(0, m.queue.len() as int) =~= m.queue);
}

/// A registration that is accepted records the server as alive with no
/// clients; one that is refused changes nothing.
pub proof fn law_registration_outcome(m: ManagerModel, server: AddressModel, max_clients: u64)
    ensures
        ({
            let (m2, reply) = register_step(m, server, max_clients);
            &&& reply == ManagerReply::Registered <==> (max_clients >= 1 && !(m.servers.contains_key(
                server) && m.servers[server].status == Status::Alive))
            &&& reply == ManagerReply::Registered ==> m2.servers.contains_key(server)
                && m2.servers[server].status == Status::Alive && m2.servers[server].num_clients == 0
                && m2.servers[server].max_clients == max_clients
            &&& reply != ManagerReply::Registered ==> m2 == m
        }),
{
}

/// A server that registered cannot register again while it is alive.
pub proof fn law_no_double_registration(
    m: ManagerModel,
    server: AddressModel,
    first: u64,
    second: u64,
)
    requires
        register_step(m, server, first).1 == ManagerReply::Registered,
    ensures
        register_step(register_step(m, server, first).0, server, second) == (
            register_step(m, server, first).0,
            if second < 1 {
                ManagerReply::InvalidMaxClients
            } else {
                ManagerReply::AlreadyRegistered
            },
        ),
{
}

/// A server whose acknowledgement could not be delivered is recorded as
/// dead, takes no new client, and can register again, starting afresh.
pub proof fn law_reregistration_after_failed_ack(
    m: ManagerModel,
    server: AddressModel,
    first: u64,
    second: u64,
)
    requires
        register_step(m, server, first).1 == ManagerReply::Registered,
        second >= 1,
    ensures
        ({
            let m1 = register_step(m, server, first).0;
            let m2 = ack_failed_step(m1, server);
            let (m3, reply) = register_step(m2, server, second);
            &&& m2.servers[server].status == Status::Dead
            &&& !eligible(m2, server)
            &&& reply == ManagerReply::Registered
            &&& m3.servers[server].status == Status::Alive
            &&& m3.servers[server].num_clients == 0
            &&& m3.servers[server].max_clients == second
            &&& m3.order == m2.order
        }),
{
}

/// A failed acknowledgement touches only the record of that server, and
/// only its status.
pub proof fn law_failed_ack_marks_only_that_server(m: ManagerModel, server: AddressModel)
    ensures
        ({
            let m2 = ack_failed_step(m, server);
            &&& m2.servers.dom() == m.servers.dom()
            &&& forall|k: AddressModel| #[trigger]
                m2.servers.contains_key(k) && k != server ==> m2.servers[k] == m.servers[k]
            &&& m.servers.contains_key(server) ==> m2.servers[server].status == Status::Dead
                && m2.servers[server].num_clients == m.servers[server].num_clients
                && m2.servers[server].max_clients == m.servers[server].max_clients
            &&& m2.queue == m.queue && m2.assignments == m.assignments && m2.shutdown == m.shutdown
                && m2.order == m.order && m2.next == m.next
        }),
{
    let m2 = ack_failed_step(m, server);
    if m.servers.contains_key(server) {
        assert(m2.servers.dom() =~= m.servers.dom());
    }
}

/// A connected client that leaves frees a place at its server: it is no
/// longer connected, and its server (which counted it) counts one client
/// less.
pub proof fn law_disconnect_frees_a_place(m: ManagerModel, client: AddressModel)
    requires
        manager_valid(m),
        disconnect_allowed(m, client),
        m.assignments.contains_key(client),
    ensures
        ({
            let s = m.assignments[client];
            let (m2, reply) = disconnect_step(m, client);
            &&& reply == ManagerReply::Disconnected
            &&& !m2.assignments.contains_key(client)
            &&& m.servers[s].num_clients >= 1
            &&& m2.servers[s].num_clients == m.servers[s].num_clients - 1
            &&& m2.servers[s].max_clients == m.servers[s].max_clients
            &&& m2.servers[s].status == m.servers[s].status
            &&& m2.servers.dom() == m.servers.dom()
            &&& m2.queue == m.queue
        }),
{
    let s = m.assignments[client];
    lemma_clients_remove(m.assignments, client, s);
    assert(disconnect_step(m, client).0.servers.dom() =~= m.servers.dom());
}

/// Assignment is round robin: the client at the front of the queue goes
/// to the first server, in the round-robin order counted from the position
/// after the server chosen last, that is alive and below its limit; the
/// search then moves past that server. When no server can take a client,
/// the client keeps waiting and nothing changes.
pub proof fn law_assignment_is_round_robin(m: ManagerModel)
    requires
        manager_valid(m),
    ensures
        ({
            let (m2, r) = assign_step(m);
            let n = m.order.len();
            &&& r matches Some((c, s)) ==> {
                &&& m.queue.len() > 0 && c == m.queue[0] && !m.assignments.contains_key(c)
                &&& eligible(m, s)
                &&& exists|j: nat|
                    j < n && s == m.order[cyclic_index(m.next, j, n) as int] && m2.next
                        == cyclic_index(m.next, j, n) + 1 && forall|k: nat|
                        k < j ==> !eligible(m, #[trigger] m.order[cyclic_index(m.next, k, n) as int])
                &&& m2.assignments == m.assignments.insert(c, s)
                &&& m2.servers[s].num_clients == m.servers[s].num_clients + 1
                &&& m2.servers[s].num_clients <= m2.servers[s].max_clients
                &&& m2.queue == m.queue.drop_first()
            }
            &&& (r is None && m.queue.len() > 0 && !m.assignments.contains_key(m.queue[0])) ==> {
                &&& m2 == m
                &&& forall|k: nat|
                    k < n ==> !eligible(m, #[trigger] m.order[cyclic_index(m.next, k, n) as int])
            }
        }),
{
    lemma_first_eligible(m, 0);
}

/// A manager that starts afresh counts exactly: every server counts the
/// clients connected to it.
pub proof fn law_initial_counts_exact()
    ensures
        manager_valid(initial_manager()),
        counts_exact(initial_manager()),
{
}

/// Exact counts stay exact on every message, failed acknowledgement and
/// assignment, except a registration of a server that still has clients
/// connected to it from an earlier run (its count starts again from zero).
/// With exact counts every disconnect notice can be taken.
pub proof fn law_counts_stay_exact(m: ManagerModel, c: ManagerCommandModel, a: AddressModel)
    requires
        manager_valid(m),
        counts_exact(m),
        !(c matches ManagerCommandModel::Register { server, max_clients } && clients_of(
            m.assignments,
            server,
        ).len() > 0),
    ensures
        command_allowed(m, c),
        counts_exact(manager_step(m, c).0),
        counts_exact(ack_failed_step(m, a)),
        counts_exact(assign_step(m).0),
{
    match c {
        ManagerCommandModel::ClientDisconnect { client } => {
            if m.assignments.contains_key(client) {
                let s = m.assignments[client];
                lemma_clients_remove(m.assignments, client, s);
                let m2 = manager_step(m, c).0;
                assert forall|k: AddressModel| #[trigger] m2.servers.contains_key(k) implies m2.servers[k].num_clients
                    == clients_of(m2.assignments, k).len() by {
                    lemma_clients_remove(m.assignments, client, k);
                }
            }
        },
        _ => {},
    }
    lemma_first_eligible(m, 0);
    if m.queue.len() > 0 && !m.assignments.contains_key(m.queue[0]) {
        if let Some(j) = first_eligible(m, 0) {
            let i = cyclic_index(m.next, j, m.order.len());
            let s = m.order[i as int];
            let cl = m.queue[0];
            let m2 = assign_step(m).0;
            assert forall|k: AddressModel| #[trigger] m2.servers.contains_key(k) implies m2.servers[k].num_clients
                == clients_of(m2.assignments, k).len() by {
                lemma_clients_insert(m.assignments, cl, s, k);
            }
        }
    }
}

/// An assignment changes no server's status or limit and touches no
/// record but that of the chosen server, whose count grows by exactly one;
/// it leaves the round-robin order, the shutdown flag and the registered
/// servers as they are, and takes at most the front client off the queue.
pub proof fn law_assignment_frame(m: ManagerModel)
    requires
        manager_valid(m),
    ensures
        ({
            let (m2, r) = assign_step(m);
            &&& m2.servers.dom() == m.servers.dom()
            &&& forall|k: AddressModel| #[trigger]
                m.servers.contains_key(k) ==> m2.servers[k].status == m.servers[k].status
                    && m2.servers[k].max_clients == m.servers[k].max_clients
                    && m2.servers[k].host == m.servers[k].host && m2.servers[k].port
                    == m.servers[k].port
            &&& forall|k: AddressModel| #[trigger]
                m.servers.contains_key(k) && !(r matches Some((c, s)) && s == k) ==> m2.servers[k]
                    == m.servers[k]
            &&& r matches Some((c, s)) ==> m2.servers[s].num_clients == m.servers[s].num_clients
                + 1
            &&& m2.order == m.order
            &&& m2.shutdown == m.shutdown
            &&& r is None ==> m2.assignments == m.assignments && m2.next == m.next
        }),
{
    lemma_first_eligible(m, 0);
    let m2 = assign_step(m).0;
    assert(m2.servers.dom() =~= m.servers.dom());
}

/// A connect request changes nothing but the queue: the servers, the
/// round-robin order and position, the connections and the shutdown flag
/// stay as they are.
pub proof fn law_connect_frame(m: ManagerModel, client: AddressModel)
    ensures
        ({
            let m2 = connect_step(m, client).0;
            &&& m2.servers == m.servers
            &&& m2.order == m.order
            &&& m2.next == m.next
            &&& m2.assignments == m.assignments
            &&& m2.shutdown == m.shutdown
        }),
{
}

/// A disconnect notice changes only the connections and the count of the
/// leaving client's server: the round-robin order and position, the queue,
/// the shutdown flag, every status and limit, and every other server's
/// record stay as they are.
pub proof fn law_disconnect_frame(m: ManagerModel, client: AddressModel)
    ensures
        ({
            let m2 = disconnect_step(m, client).0;
            &&& m2.order == m.order
            &&& m2.next == m.next
            &&& m2.queue == m.queue
            &&& m2.shutdown == m.shutdown
            &&& m2.servers.dom() == m.servers.dom()
            &&& forall|k: AddressModel| #[trigger]
                m.servers.contains_key(k) ==> m2.servers[k].status == m.servers[k].status
                    && m2.servers[k].max_clients == m.servers[k].max_clients
            &&& forall|k: AddressModel| #[trigger]
                m.servers.contains_key(k) && !(m.assignments.contains_key(client)
                    && m.assignments[client] == k) ==> m2.servers[k] == m.servers[k]
            &&& forall|c: AddressModel| #[trigger]
                m.assignments.contains_key(c) && c != client ==> m2.assignments.contains_key(c)
                    && m2.assignments[c] == m.assignments[c]
        }),
{
    let m2 = disconnect_step(m, client).0;
    assert(m2.servers.dom() =~= m.servers.dom());
}

/// When a client leaves an alive server, that server can take a client
/// again: it stays alive and counts fewer clients than its limit.
pub proof fn law_disconnect_reopens_the_server(m: ManagerModel, client: AddressModel)
    requires
        manager_valid(m),
        disconnect_allowed(m, client),
        m.assignments.contains_key(client),
        m.servers[m.assignments[client]].status == Status::Alive,
    ensures
        eligible(disconnect_step(m, client).0, m.assignments[client]),
{
}

/// An accepted registration changes only the record of the registering
/// server: every other server keeps its record, the round-robin position,
/// queue, connections and shutdown flag stay as they are, and the order
/// grows by the new server only when it was not registered before.
pub proof fn law_registration_frame(m: ManagerModel, server: AddressModel, max_clients: u64)
    ensures
        ({
            let m2 = register_step(m, server, max_clients).0;
            &&& forall|k: AddressModel| #[trigger]
                m.servers.contains_key(k) && k != server ==> m2.servers.contains_key(k)
                    && m2.servers[k] == m.servers[k]
            &&& forall|k: AddressModel| #[trigger]
                m2.servers.contains_key(k) ==> k == server || m.servers.contains_key(k)
            &&& m2.next == m.next
            &&& m2.queue == m.queue
            &&& m2.assignments == m.assignments
            &&& m2.shutdown == m.shutdown
            &&& m2.order == m.order || (!m.servers.contains_key(server) && m2.order
                == m.order.push(server))
        }),
{
}

/// How the manager reads each kind of message, in terms of its entries:
/// a registration with text host and port and an unsigned `max_clients`
/// is read as that registration, whatever the number; connect and
/// disconnect requests with text host and port as that request; a shutdown
/// as a shutdown.
pub proof fn law_manager_reads_well_formed_messages(
    e: EnvelopeModel,
    host: Seq<char>,
    port: Seq<char>,
    n: u64,
)
    ensures
        (e.message_type == FieldModel::Text("register"@) && e.host == FieldModel::Text(host)
            && e.port == FieldModel::Text(port) && e.max_clients == FieldModel::Unsigned(n))
            ==> manager_command_of(e) == (ManagerCommandModel::Register {
            server: (host, port),
            max_clients: n,
        }),
        (e.message_type == FieldModel::Text("client_connect"@) && e.host == FieldModel::Text(host)
            && e.port == FieldModel::Text(port)) ==> manager_command_of(e) == (
        ManagerCommandModel::ClientConnect { client: (host, port) }),
        (e.message_type == FieldModel::Text("client_disconnect"@) && e.host == FieldModel::Text(
            host,
        ) && e.port == FieldModel::Text(port)) ==> manager_command_of(e) == (
        ManagerCommandModel::ClientDisconnect { client: (host, port) }),
        e.message_type == FieldModel::Text("shutdown"@) ==> manager_command_of(e)
            == ManagerCommandModel::Shutdown,
{
    reveal_strlit("shutdown");
    reveal_strlit("register");
    reveal_strlit("client_connect");
    reveal_strlit("client_disconnect");
    assert("register"@[0] != "shutdown"@[0]);
    assert("client_connect"@.len() != "shutdown"@.len());
    assert("client_connect"@.len() != "register"@.len());
    assert("client_disconnect"@.len() != "shutdown"@.len());
    assert("client_disconnect"@.len() != "register"@.len());
    assert("client_disconnect"@.len() != "client_connect"@.len());
}

} // verus!
